//! Hotkey strings such as `"ctrl+alt+1"`: splitting, trimming, modifier and
//! key recognition.
use vstd::prelude::*;

use crate::text::{chars_of, lowercase, string_of, texts, to_lowercase};

verus! {

/// The keys a hotkey may name.
#[derive(Clone, Copy, Debug, PartialEq, Eq, Structural)]
pub enum KeyCode {
    Digit0,
    Digit1,
    Digit2,
    Digit3,
    Digit4,
    Digit5,
    Digit6,
    Digit7,
    Digit8,
    Digit9,
    KeyA,
    KeyB,
    KeyC,
    KeyD,
    KeyE,
    KeyF,
    KeyG,
    KeyH,
    KeyI,
    KeyJ,
    KeyK,
    KeyL,
    KeyM,
    KeyN,
    KeyO,
    KeyP,
    KeyQ,
    KeyR,
    KeyS,
    KeyT,
    KeyU,
    KeyV,
    KeyW,
    KeyX,
    KeyY,
    KeyZ,
    F1,
    F2,
    F3,
    F4,
    F5,
    F6,
    F7,
    F8,
    F9,
    F10,
    F11,
    F12,
    Space,
    Enter,
    Tab,
    Escape,
    ArrowLeft,
    ArrowRight,
    ArrowUp,
    ArrowDown,
}

/// Modifier keys held together with the key.
#[derive(Clone, Copy, Debug, PartialEq, Eq, Structural)]
pub struct HotkeyModifiers {
    pub control: bool,
    pub alt: bool,
    pub shift: bool,
    pub super_key: bool,
}

/// A parsed hotkey: modifiers plus one key.
#[derive(Clone, Copy, Debug, PartialEq, Eq, Structural)]
pub struct HotkeySpec {
    pub modifiers: HotkeyModifiers,
    pub key: KeyCode,
}

/// The key a lower-cased key name stands for.
pub open spec fn key_code_spec(name: Seq<char>) -> Option<KeyCode> {
    if name == "0"@ {
        Some(KeyCode::Digit0)
    } else if name == "1"@ {
        Some(KeyCode::Digit1)
    } else if name == "2"@ {
        Some(KeyCode::Digit2)
    } else if name == "3"@ {
        Some(KeyCode::Digit3)
    } else if name == "4"@ {
        Some(KeyCode::Digit4)
    } else if name == "5"@ {
        Some(KeyCode::Digit5)
    } else if name == "6"@ {
        Some(KeyCode::Digit6)
    } else if name == "7"@ {
        Some(KeyCode::Digit7)
    } else if name == "8"@ {
        Some(KeyCode::Digit8)
    } else if name == "9"@ {
        Some(KeyCode::Digit9)
    } else if name == "a"@ {
        Some(KeyCode::KeyA)
    } else if name == "b"@ {
        Some(KeyCode::KeyB)
    } else if name == "c"@ {
        Some(KeyCode::KeyC)
    } else if name == "d"@ {
        Some(KeyCode::KeyD)
    } else if name == "e"@ {
        Some(KeyCode::KeyE)
    } else if name == "f"@ {
        Some(KeyCode::KeyF)
    } else if name == "g"@ {
        Some(KeyCode::KeyG)
    } else if name == "h"@ {
        Some(KeyCode::KeyH)
    } else if name == "i"@ {
        Some(KeyCode::KeyI)
    } else if name == "j"@ {
        Some(KeyCode::KeyJ)
    } else if name == "k"@ {
        Some(KeyCode::KeyK)
    } else if name == "l"@ {
        Some(KeyCode::KeyL)
    } else if name == "m"@ {
        Some(KeyCode::KeyM)
    } else if name == "n"@ {
        Some(KeyCode::KeyN)
    } else if name == "o"@ {
        Some(KeyCode::KeyO)
    } else if name == "p"@ {
        Some(KeyCode::KeyP)
    } else if name == "q"@ {
        Some(KeyCode::KeyQ)
    } else if name == "r"@ {
        Some(KeyCode::KeyR)
    } else if name == "s"@ {
        Some(KeyCode::KeyS)
    } else if name == "t"@ {
        Some(KeyCode::KeyT)
    } else if name == "u"@ {
        Some(KeyCode::KeyU)
    } else if name == "v"@ {
        Some(KeyCode::KeyV)
    } else if name == "w"@ {
        Some(KeyCode::KeyW)
    } else if name == "x"@ {
        Some(KeyCode::KeyX)
    } else if name == "y"@ {
        Some(KeyCode::KeyY)
    } else if name == "z"@ {
        Some(KeyCode::KeyZ)
    } else if name == "f1"@ {
        Some(KeyCode::F1)
    } else if name == "f2"@ {
        Some(KeyCode::F2)
    } else if name == "f3"@ {
        Some(KeyCode::F3)
    } else if name == "f4"@ {
        Some(KeyCode::F4)
    } else if name == "f5"@ {
        Some(KeyCode::F5)
    } else if name == "f6"@ {
        Some(KeyCode::F6)
    } else if name == "f7"@ {
        Some(KeyCode::F7)
    } else if name == "f8"@ {
        Some(KeyCode::F8)
    } else if name == "f9"@ {
        Some(KeyCode::F9)
    } else if name == "f10"@ {
        Some(KeyCode::F10)
    } else if name == "f11"@ {
        Some(KeyCode::F11)
    } else if name == "f12"@ {
        Some(KeyCode::F12)
    } else if name == "space"@ {
        Some(KeyCode::Space)
    } else if name == "enter"@ {
        Some(KeyCode::Enter)
    } else if name == "return"@ {
        Some(KeyCode::Enter)
    } else if name == "tab"@ {
        Some(KeyCode::Tab)
    } else if name == "escape"@ {
        Some(KeyCode::Escape)
    } else if name == "esc"@ {
        Some(KeyCode::Escape)
    } else if name == "left"@ {
        Some(KeyCode::ArrowLeft)
    } else if name == "right"@ {
        Some(KeyCode::ArrowRight)
    } else if name == "up"@ {
        Some(KeyCode::ArrowUp)
    } else if name == "down"@ {
        Some(KeyCode::ArrowDown)
    } else {
        None
    }
}

/// The key names, character by character.
proof fn lemma_key_names()
    ensures
        "0"@.len() == 1 && "0"@[0] == '0',
        "1"@.len() == 1 && "1"@[0] == '1',
        "2"@.len() == 1 && "2"@[0] == '2',
        "3"@.len() == 1 && "3"@[0] == '3',
        "4"@.len() == 1 && "4"@[0] == '4',
        "5"@.len() == 1 && "5"@[0] == '5',
        "6"@.len() == 1 && "6"@[0] == '6',
        "7"@.len() == 1 && "7"@[0] == '7',
        "8"@.len() == 1 && "8"@[0] == '8',
        "9"@.len() == 1 && "9"@[0] == '9',
        "a"@.len() == 1 && "a"@[0] == 'a',
        "b"@.len() == 1 && "b"@[0] == 'b',
        "c"@.len() == 1 && "c"@[0] == 'c',
        "d"@.len() == 1 && "d"@[0] == 'd',
        "e"@.len() == 1 && "e"@[0] == 'e',
        "f"@.len() == 1 && "f"@[0] == 'f',
        "g"@.len() == 1 && "g"@[0] == 'g',
        "h"@.len() == 1 && "h"@[0] == 'h',
        "i"@.len() == 1 && "i"@[0] == 'i',
        "j"@.len() == 1 && "j"@[0] == 'j',
        "k"@.len() == 1 && "k"@[0] == 'k',
        "l"@.len() == 1 && "l"@[0] == 'l',
        "m"@.len() == 1 && "m"@[0] == 'm',
        "n"@.len() == 1 && "n"@[0] == 'n',
        "o"@.len() == 1 && "o"@[0] == 'o',
        "p"@.len() == 1 && "p"@[0] == 'p',
        "q"@.len() == 1 && "q"@[0] == 'q',
        "r"@.len() == 1 && "r"@[0] == 'r',
        "s"@.len() == 1 && "s"@[0] == 's',
        "t"@.len() == 1 && "t"@[0] == 't',
        "u"@.len() == 1 && "u"@[0] == 'u',
        "v"@.len() == 1 && "v"@[0] == 'v',
        "w"@.len() == 1 && "w"@[0] == 'w',
        "x"@.len() == 1 && "x"@[0] == 'x',
        "y"@.len() == 1 && "y"@[0] == 'y',
        "z"@.len() == 1 && "z"@[0] == 'z',
        "f1"@.len() == 2 && "f1"@[0] == 'f' && "f1"@[1] == '1',
        "f2"@.len() == 2 && "f2"@[0] == 'f' && "f2"@[1] == '2',
        "f3"@.len() == 2 && "f3"@[0] == 'f' && "f3"@[1] == '3',
        "f4"@.len() == 2 && "f4"@[0] == 'f' && "f4"@[1] == '4',
        "f5"@.len() == 2 && "f5"@[0] == 'f' && "f5"@[1] == '5',
        "f6"@.len() == 2 && "f6"@[0] == 'f' && "f6"@[1] == '6',
        "f7"@.len() == 2 && "f7"@[0] == 'f' && "f7"@[1] == '7',
        "f8"@.len() == 2 && "f8"@[0] == 'f' && "f8"@[1] == '8',
        "f9"@.len() == 2 && "f9"@[0] == 'f' && "f9"@[1] == '9',
        "f10"@.len() == 3 && "f10"@[0] == 'f' && "f10"@[1] == '1' && "f10"@[2] == '0',
        "f11"@.len() == 3 && "f11"@[0] == 'f' && "f11"@[1] == '1' && "f11"@[2] == '1',
        "f12"@.len() == 3 && "f12"@[0] == 'f' && "f12"@[1] == '1' && "f12"@[2] == '2',
        "space"@.len() == 5 && "space"@[0] == 's' && "space"@[1] == 'p' && "space"@[2] == 'a' && "space"@[3] == 'c' && "space"@[4] == 'e',
        "enter"@.len() == 5 && "enter"@[0] == 'e' && "enter"@[1] == 'n' && "enter"@[2] == 't' && "enter"@[3] == 'e' && "enter"@[4] == 'r',
        "return"@.len() == 6 && "return"@[0] == 'r' && "return"@[1] == 'e' && "return"@[2] == 't' && "return"@[3] == 'u' && "return"@[4] == 'r' && "return"@[5] == 'n',
        "tab"@.len() == 3 && "tab"@[0] == 't' && "tab"@[1] == 'a' && "tab"@[2] == 'b',
        "escape"@.len() == 6 && "escape"@[0] == 'e' && "escape"@[1] == 's' && "escape"@[2] == 'c' && "escape"@[3] == 'a' && "escape"@[4] == 'p' && "escape"@[5] == 'e',
        "esc"@.len() == 3 && "esc"@[0] == 'e' && "esc"@[1] == 's' && "esc"@[2] == 'c',
        "left"@.len() == 4 && "left"@[0] == 'l' && "left"@[1] == 'e' && "left"@[2] == 'f' && "left"@[3] == 't',
        "right"@.len() == 5 && "right"@[0] == 'r' && "right"@[1] == 'i' && "right"@[2] == 'g' && "right"@[3] == 'h' && "right"@[4] == 't',
        "up"@.len() == 2 && "up"@[0] == 'u' && "up"@[1] == 'p',
        "down"@.len() == 4 && "down"@[0] == 'd' && "down"@[1] == 'o' && "down"@[2] == 'w' && "down"@[3] == 'n',
{
    reveal_strlit("0");
    reveal_strlit("1");
    reveal_strlit("2");
    reveal_strlit("3");
    reveal_strlit("4");
    reveal_strlit("5");
    reveal_strlit("6");
    reveal_strlit("7");
    reveal_strlit("8");
    reveal_strlit("9");
    reveal_strlit("a");
    reveal_strlit("b");
    reveal_strlit("c");
    reveal_strlit("d");
    reveal_strlit("e");
    reveal_strlit("f");
    reveal_strlit("g");
    reveal_strlit("h");
    reveal_strlit("i");
    reveal_strlit("j");
    reveal_strlit("k");
    reveal_strlit("l");
    reveal_strlit("m");
    reveal_strlit("n");
    reveal_strlit("o");
    reveal_strlit("p");
    reveal_strlit("q");
    reveal_strlit("r");
    reveal_strlit("s");
    reveal_strlit("t");
    reveal_strlit("u");
    reveal_strlit("v");
    reveal_strlit("w");
    reveal_strlit("x");
    reveal_strlit("y");
    reveal_strlit("z");
    reveal_strlit("f1");
    reveal_strlit("f2");
    reveal_strlit("f3");
    reveal_strlit("f4");
    reveal_strlit("f5");
    reveal_strlit("f6");
    reveal_strlit("f7");
    reveal_strlit("f8");
    reveal_strlit("f9");
    reveal_strlit("f10");
    reveal_strlit("f11");
    reveal_strlit("f12");
    reveal_strlit("space");
    reveal_strlit("enter");
    reveal_strlit("return");
    reveal_strlit("tab");
    reveal_strlit("escape");
    reveal_strlit("esc");
    reveal_strlit("left");
    reveal_strlit("right");
    reveal_strlit("up");
    reveal_strlit("down");
}

/// Each single decimal digit names the digit key of the same value: "3" is
/// the 3 key.
pub proof fn law_digits_name_their_keys(c: char)
    requires
        '0' <= c <= '9',
    ensures
        key_code_spec(seq![c]) == Some(
            match c {
                '0' => KeyCode::Digit0,
                '1' => KeyCode::Digit1,
                '2' => KeyCode::Digit2,
                '3' => KeyCode::Digit3,
                '4' => KeyCode::Digit4,
                '5' => KeyCode::Digit5,
                '6' => KeyCode::Digit6,
                '7' => KeyCode::Digit7,
                '8' => KeyCode::Digit8,
                _ => KeyCode::Digit9,
            }
        ),
{
    lemma_key_names();
    if c == '0' {
        assert(seq![c][0] == '0' && seq![c] =~= "0"@);
    }
    if c == '1' {
        assert(seq![c][0] == '1' && seq![c] =~= "1"@);
    }
    if c == '2' {
        assert(seq![c][0] == '2' && seq![c] =~= "2"@);
    }
    if c == '3' {
        assert(seq![c][0] == '3' && seq![c] =~= "3"@);
    }
    if c == '4' {
        assert(seq![c][0] == '4' && seq![c] =~= "4"@);
    }
    if c == '5' {
        assert(seq![c][0] == '5' && seq![c] =~= "5"@);
    }
    if c == '6' {
        assert(seq![c][0] == '6' && seq![c] =~= "6"@);
    }
    if c == '7' {
        assert(seq![c][0] == '7' && seq![c] =~= "7"@);
    }
    if c == '8' {
        assert(seq![c][0] == '8' && seq![c] =~= "8"@);
    }
    if c == '9' {
        assert(seq![c][0] == '9' && seq![c] =~= "9"@);
    }
}

/// Each single lower-case letter names the key of that letter.
pub proof fn law_letters_name_their_keys(c: char)
    requires
        'a' <= c <= 'z',
    ensures
        key_code_spec(seq![c]) == Some(
            match c {
                'a' => KeyCode::KeyA,
                'b' => KeyCode::KeyB,
                'c' => KeyCode::KeyC,
                'd' => KeyCode::KeyD,
                'e' => KeyCode::KeyE,
                'f' => KeyCode::KeyF,
                'g' => KeyCode::KeyG,
                'h' => KeyCode::KeyH,
                'i' => KeyCode::KeyI,
                'j' => KeyCode::KeyJ,
                'k' => KeyCode::KeyK,
                'l' => KeyCode::KeyL,
                'm' => KeyCode::KeyM,
                'n' => KeyCode::KeyN,
                'o' => KeyCode::KeyO,
                'p' => KeyCode::KeyP,
                'q' => KeyCode::KeyQ,
                'r' => KeyCode::KeyR,
                's' => KeyCode::KeyS,
                't' => KeyCode::KeyT,
                'u' => KeyCode::KeyU,
                'v' => KeyCode::KeyV,
                'w' => KeyCode::KeyW,
                'x' => KeyCode::KeyX,
                'y' => KeyCode::KeyY,
                _ => KeyCode::KeyZ,
            }
        ),
{
    lemma_key_names();
    if c == 'a' {
        assert(seq![c][0] == 'a' && seq![c] =~= "a"@);
    }
    if c == 'b' {
        assert(seq![c][0] == 'b' && seq![c] =~= "b"@);
    }
    if c == 'c' {
        assert(seq![c][0] == 'c' && seq![c] =~= "c"@);
    }
    if c == 'd' {
        assert(seq![c][0] == 'd' && seq![c] =~= "d"@);
    }
    if c == 'e' {
        assert(seq![c][0] == 'e' && seq![c] =~= "e"@);
    }
    if c == 'f' {
        assert(seq![c][0] == 'f' && seq![c] =~= "f"@);
    }
    if c == 'g' {
        assert(seq![c][0] == 'g' && seq![c] =~= "g"@);
    }
    if c == 'h' {
        assert(seq![c][0] == 'h' && seq![c] =~= "h"@);
    }
    if c == 'i' {
        assert(seq![c][0] == 'i' && seq![c] =~= "i"@);
    }
    if c == 'j' {
        assert(seq![c][0] == 'j' && seq![c] =~= "j"@);
    }
    if c == 'k' {
        assert(seq![c][0] == 'k' && seq![c] =~= "k"@);
    }
    if c == 'l' {
        assert(seq![c][0] == 'l' && seq![c] =~= "l"@);
    }
    if c == 'm' {
        assert(seq![c][0] == 'm' && seq![c] =~= "m"@);
    }
    if c == 'n' {
        assert(seq![c][0] == 'n' && seq![c] =~= "n"@);
    }
    if c == 'o' {
        assert(seq![c][0] == 'o' && seq![c] =~= "o"@);
    }
    if c == 'p' {
        assert(seq![c][0] == 'p' && seq![c] =~= "p"@);
    }
    if c == 'q' {
        assert(seq![c][0] == 'q' && seq![c] =~= "q"@);
    }
    if c == 'r' {
        assert(seq![c][0] == 'r' && seq![c] =~= "r"@);
    }
    if c == 's' {
        assert(seq![c][0] == 's' && seq![c] =~= "s"@);
    }
    if c == 't' {
        assert(seq![c][0] == 't' && seq![c] =~= "t"@);
    }
    if c == 'u' {
        assert(seq![c][0] == 'u' && seq![c] =~= "u"@);
    }
    if c == 'v' {
        assert(seq![c][0] == 'v' && seq![c] =~= "v"@);
    }
    if c == 'w' {
        assert(seq![c][0] == 'w' && seq![c] =~= "w"@);
    }
    if c == 'x' {
        assert(seq![c][0] == 'x' && seq![c] =~= "x"@);
    }
    if c == 'y' {
        assert(seq![c][0] == 'y' && seq![c] =~= "y"@);
    }
    if c == 'z' {
        assert(seq![c][0] == 'z' && seq![c] =~= "z"@);
    }
}

/// The function keys are named `f1` to `f12`, and the other named keys are
/// `space`, `enter` or `return`, `tab`, `escape` or `esc`, and the arrows
/// `left`, `right`, `up` and `down`; each name gives its own key.
pub proof fn law_named_keys()
    ensures
        key_code_spec("f1"@) == Some(KeyCode::F1),
        key_code_spec("f2"@) == Some(KeyCode::F2),
        key_code_spec("f3"@) == Some(KeyCode::F3),
        key_code_spec("f4"@) == Some(KeyCode::F4),
        key_code_spec("f5"@) == Some(KeyCode::F5),
        key_code_spec("f6"@) == Some(KeyCode::F6),
        key_code_spec("f7"@) == Some(KeyCode::F7),
        key_code_spec("f8"@) == Some(KeyCode::F8),
        key_code_spec("f9"@) == Some(KeyCode::F9),
        key_code_spec("f10"@) == Some(KeyCode::F10),
        key_code_spec("f11"@) == Some(KeyCode::F11),
        key_code_spec("f12"@) == Some(KeyCode::F12),
        key_code_spec("space"@) == Some(KeyCode::Space),
        key_code_spec("enter"@) == Some(KeyCode::Enter),
        key_code_spec("return"@) == Some(KeyCode::Enter),
        key_code_spec("tab"@) == Some(KeyCode::Tab),
        key_code_spec("escape"@) == Some(KeyCode::Escape),
        key_code_spec("esc"@) == Some(KeyCode::Escape),
        key_code_spec("left"@) == Some(KeyCode::ArrowLeft),
        key_code_spec("right"@) == Some(KeyCode::ArrowRight),
        key_code_spec("up"@) == Some(KeyCode::ArrowUp),
        key_code_spec("down"@) == Some(KeyCode::ArrowDown),
{
    lemma_key_names();
}

/// The key a lower-cased key name stands for.
fn key_code(name: &String) -> (key: Option<KeyCode>)
    ensures
        key == key_code_spec(name@),
{
    if *name == String::from_str("0") {
        Some(KeyCode::Digit0)
    } else if *name == String::from_str("1") {
        Some(KeyCode::Digit1)
    } else if *name == String::from_str("2") {
        Some(KeyCode::Digit2)
    } else if *name == String::from_str("3") {
        Some(KeyCode::Digit3)
    } else if *name == String::from_str("4") {
        Some(KeyCode::Digit4)
    } else if *name == String::from_str("5") {
        Some(KeyCode::Digit5)
    } else if *name == String::from_str("6") {
        Some(KeyCode::Digit6)
    } else if *name == String::from_str("7") {
        Some(KeyCode::Digit7)
    } else if *name == String::from_str("8") {
        Some(KeyCode::Digit8)
    } else if *name == String::from_str("9") {
        Some(KeyCode::Digit9)
    } else if *name == String::from_str("a") {
        Some(KeyCode::KeyA)
    } else if *name == String::from_str("b") {
        Some(KeyCode::KeyB)
    } else if *name == String::from_str("c") {
        Some(KeyCode::KeyC)
    } else if *name == String::from_str("d") {
        Some(KeyCode::KeyD)
    } else if *name == String::from_str("e") {
        Some(KeyCode::KeyE)
    } else if *name == String::from_str("f") {
        Some(KeyCode::KeyF)
    } else if *name == String::from_str("g") {
        Some(KeyCode::KeyG)
    } else if *name == String::from_str("h") {
        Some(KeyCode::KeyH)
    } else if *name == String::from_str("i") {
        Some(KeyCode::KeyI)
    } else if *name == String::from_str("j") {
        Some(KeyCode::KeyJ)
    } else if *name == String::from_str("k") {
        Some(KeyCode::KeyK)
    } else if *name == String::from_str("l") {
        Some(KeyCode::KeyL)
    } else if *name == String::from_str("m") {
        Some(KeyCode::KeyM)
    } else if *name == String::from_str("n") {
        Some(KeyCode::KeyN)
    } else if *name == String::from_str("o") {
        Some(KeyCode::KeyO)
    } else if *name == String::from_str("p") {
        Some(KeyCode::KeyP)
    } else if *name == String::from_str("q") {
        Some(KeyCode::KeyQ)
    } else if *name == String::from_str("r") {
        Some(KeyCode::KeyR)
    } else if *name == String::from_str("s") {
        Some(KeyCode::KeyS)
    } else if *name == String::from_str("t") {
        Some(KeyCode::KeyT)
    } else if *name == String::from_str("u") {
        Some(KeyCode::KeyU)
    } else if *name == String::from_str("v") {
        Some(KeyCode::KeyV)
    } else if *name == String::from_str("w") {
        Some(KeyCode::KeyW)
    } else if *name == String::from_str("x") {
        Some(KeyCode::KeyX)
    } else if *name == String::from_str("y") {
        Some(KeyCode::KeyY)
    } else if *name == String::from_str("z") {
        Some(KeyCode::KeyZ)
    } else if *name == String::from_str("f1") {
        Some(KeyCode::F1)
    } else if *name == String::from_str("f2") {
        Some(KeyCode::F2)
    } else if *name == String::from_str("f3") {
        Some(KeyCode::F3)
    } else if *name == String::from_str("f4") {
        Some(KeyCode::F4)
    } else if *name == String::from_str("f5") {
        Some(KeyCode::F5)
    } else if *name == String::from_str("f6") {
        Some(KeyCode::F6)
    } else if *name == String::from_str("f7") {
        Some(KeyCode::F7)
    } else if *name == String::from_str("f8") {
        Some(KeyCode::F8)
    } else if *name == String::from_str("f9") {
        Some(KeyCode::F9)
    } else if *name == String::from_str("f10") {
        Some(KeyCode::F10)
    } else if *name == String::from_str("f11") {
        Some(KeyCode::F11)
    } else if *name == String::from_str("f12") {
        Some(KeyCode::F12)
    } else if *name == String::from_str("space") {
        Some(KeyCode::Space)
    } else if *name == String::from_str("enter") {
        Some(KeyCode::Enter)
    } else if *name == String::from_str("return") {
        Some(KeyCode::Enter)
    } else if *name == String::from_str("tab") {
        Some(KeyCode::Tab)
    } else if *name == String::from_str("escape") {
        Some(KeyCode::Escape)
    } else if *name == String::from_str("esc") {
        Some(KeyCode::Escape)
    } else if *name == String::from_str("left") {
        Some(KeyCode::ArrowLeft)
    } else if *name == String::from_str("right") {
        Some(KeyCode::ArrowRight)
    } else if *name == String::from_str("up") {
        Some(KeyCode::ArrowUp)
    } else if *name == String::from_str("down") {
        Some(KeyCode::ArrowDown)
    } else {
        None
    }
}

// ───────────────────────── splitting and trimming ─────────────────────────

/// `char::is_whitespace`: the Unicode `White_Space` property.
pub open spec fn is_whitespace(c: char) -> bool {
    let n = c as u32;
    ||| 0x09 <= n <= 0x0d
    ||| n == 0x20
    ||| n == 0x85
    ||| n == 0xa0
    ||| n == 0x1680
    ||| 0x2000 <= n <= 0x200a
    ||| n == 0x2028
    ||| n == 0x2029
    ||| n == 0x202f
    ||| n == 0x205f
    ||| n == 0x3000
}

pub(crate) fn whitespace(c: char) -> (r: bool)
    ensures
        r == is_whitespace(c),
{
    let n = c as u32;
    (0x09 <= n && n <= 0x0d) || n == 0x20 || n == 0x85 || n == 0xa0 || n == 0x1680 || (0x2000 <= n
        && n <= 0x200a) || n == 0x2028 || n == 0x2029 || n == 0x202f || n == 0x205f || n == 0x3000
}

/// `s` without its leading whitespace.
pub open spec fn trim_start(s: Seq<char>) -> Seq<char>
    decreases s.len(),
{
    if s.len() > 0 && is_whitespace(s[0]) {
        trim_start(s.drop_first())
    } else {
        s
    }
}

/// `s` without its trailing whitespace.
pub open spec fn trim_end(s: Seq<char>) -> Seq<char>
    decreases s.len(),
{
    if s.len() > 0 && is_whitespace(s.last()) {
        trim_end(s.drop_last())
    } else {
        s
    }
}

/// `str::trim`: `s` without leading and trailing whitespace.
pub open spec fn trim_text(s: Seq<char>) -> Seq<char> {
    trim_end(trim_start(s))
}

proof fn lemma_trim_after_trailing_space(s: Seq<char>, c: char)
    requires
        is_whitespace(c),
    ensures
        trim_end(trim_start(s.push(c))) == trim_end(trim_start(s)),
    decreases s.len(),
{
    if s.len() == 0 {
        assert(s.push(c).drop_first() =~= s);
    } else if is_whitespace(s[0]) {
        assert(s.push(c).drop_first() =~= s.drop_first().push(c));
        lemma_trim_after_trailing_space(s.drop_first(), c);
    } else {
        assert(s.push(c).drop_last() =~= s);
    }
}

/// Trimming removes Unicode whitespace (the `White_Space` characters: tab to
/// carriage return, space, next line, no-break space, ogham space mark, the
/// en quad to hair space, line and paragraph separators, narrow no-break
/// space, medium mathematical space and ideographic space) from either end.
pub proof fn law_trim_drops_unicode_whitespace(s: Seq<char>, c: char)
    requires
        ({
            let n = c as u32;
            ||| 0x09 <= n <= 0x0d
            ||| n == 0x20 || n == 0x85 || n == 0xa0 || n == 0x1680
            ||| 0x2000 <= n <= 0x200a
            ||| n == 0x2028 || n == 0x2029 || n == 0x202f || n == 0x205f || n == 0x3000
        }),
    ensures
        trim_text(seq![c] + s) == trim_text(s),
        trim_text(s.push(c)) == trim_text(s),
{
    assert((seq![c] + s)[0] == c);
    assert((seq![c] + s).drop_first() =~= s);
    lemma_trim_after_trailing_space(s, c);
}

/// The pieces of `s` between occurrences of `sep`, as `str::split` gives them
/// (always at least one piece; empty pieces kept).
pub open spec fn split_on(s: Seq<char>, sep: char) -> Seq<Seq<char>>
    decreases s.len(),
{
    if s.len() == 0 {
        seq![Seq::empty()]
    } else {
        let p = split_on(s.drop_last(), sep);
        if s.last() == sep {
            p.push(Seq::empty())
        } else {
            p.update(p.len() - 1, p.last().push(s.last()))
        }
    }
}

proof fn lemma_split_nonempty(s: Seq<char>, sep: char)
    ensures
        split_on(s, sep).len() >= 1,
    decreases s.len(),
{
    if s.len() > 0 {
        lemma_split_nonempty(s.drop_last(), sep);
    }
}

/// The characters of each piece.
pub open spec fn pieces(v: Seq<Vec<char>>) -> Seq<Seq<char>> {
    v.map_values(|x: Vec<char>| x@)
}

/// `str::split` on one character.
fn split_chars(s: &Vec<char>, sep: char) -> (parts: Vec<Vec<char>>)
    ensures
        pieces(parts@) == split_on(s@, sep),
{
    let mut parts: Vec<Vec<char>> = Vec::new();
    parts.push(Vec::new());
    assert(pieces(parts@) =~= split_on(s@.take(0), sep));
    let mut i: usize = 0;
    while i < s.len()
        invariant
            0 <= i <= s@.len(),
            pieces(parts@) == split_on(s@.take(i as int), sep),
        decreases s@.len() - i,
    {
        proof {
            lemma_split_nonempty(s@.take(i as int), sep);
        }
        assert(s@.take(i + 1).drop_last() =~= s@.take(i as int));
        let c = s[i];
        let ghost before = pieces(parts@);
        if c == sep {
            parts.push(Vec::new());
            assert(pieces(parts@) =~= before.push(Seq::empty()));
        } else {
            let mut last = parts.pop().unwrap();
            last.push(c);
            parts.push(last);
            assert(pieces(parts@) =~= before.update(before.len() - 1, before.last().push(c)));
        }
        i = i + 1;
    }
    assert(s@.take(i as int) =~= s@);
    parts
}

/// `str::trim`.
fn trim_chars(s: &Vec<char>) -> (t: Vec<char>)
    ensures
        t@ == trim_text(s@),
{
    let n = s.len();
    let mut start: usize = 0;
    assert(s@.skip(0) =~= s@);
    while start < n && whitespace(s[start])
        invariant
            n == s@.len(),
            0 <= start <= n,
            trim_start(s@) == trim_start(s@.skip(start as int)),
        decreases n - start,
    {
        assert(s@.skip(start as int).drop_first() =~= s@.skip(start + 1));
        start = start + 1;
    }
    let ghost u = s@.skip(start as int);
    assert(trim_start(u) == u);
    let mut end: usize = n;
    assert(u.take(u.len() as int) =~= u);
    while end > start && whitespace(s[end - 1])
        invariant
            n == s@.len(),
            0 <= start <= end <= n,
            u == s@.skip(start as int),
            trim_end(u) == trim_end(u.take(end - start)),
        decreases end,
    {
        assert(u.take(end - start).drop_last() =~= u.take(end - 1 - start));
        assert(u.take(end - start).last() == s@[end - 1]);
        end = end - 1;
    }
    assert(end > start ==> u.take(end - start).last() == s@[end - 1]);
    let mut t: Vec<char> = Vec::new();
    let mut k: usize = start;
    while k < end
        invariant
            n == s@.len(),
            0 <= start <= k <= end <= n,
            t@ == s@.subrange(start as int, k as int),
        decreases end - k,
    {
        t.push(s[k]);
        assert(s@.subrange(start as int, k + 1) =~= s@.subrange(start as int, k as int).push(s@[k as int]));
        k = k + 1;
    }
    assert(t@ =~= u.take(end - start));
    t
}

// ───────────────────────── modifiers and key ─────────────────────────

pub open spec fn no_modifiers() -> HotkeyModifiers {
    HotkeyModifiers { control: false, alt: false, shift: false, super_key: false }
}

/// Modifiers and key name collected from the pieces of a hotkey string: a
/// piece whose lower-cased text names a modifier sets it; any other piece
/// becomes the key name (the last such piece wins; none when there is none).
pub open spec fn scan_hotkey(parts: Seq<Seq<char>>) -> (HotkeyModifiers, Option<Seq<char>>)
    decreases parts.len(),
{
    if parts.len() == 0 {
        (no_modifiers(), None)
    } else {
        let (m, k) = scan_hotkey(parts.drop_last());
        let p = parts.last();
        let l = lowercase(p);
        if is_modifier_name(l) {
            (with_modifier(m, l), k)
        } else {
            (m, Some(p))
        }
    }
}

/// `l` names a modifier: `ctrl`, `control`, `alt`, `shift`, `super`, `win` or `meta`.
pub open spec fn is_modifier_name(l: Seq<char>) -> bool {
    l == "ctrl"@ || l == "control"@ || l == "alt"@ || l == "shift"@ || l == "super"@ || l == "win"@
        || l == "meta"@
}

/// `m` with the modifier that `l` names set.
pub open spec fn with_modifier(m: HotkeyModifiers, l: Seq<char>) -> HotkeyModifiers {
    if l == "ctrl"@ || l == "control"@ {
        HotkeyModifiers { control: true, alt: m.alt, shift: m.shift, super_key: m.super_key }
    } else if l == "alt"@ {
        HotkeyModifiers { control: m.control, alt: true, shift: m.shift, super_key: m.super_key }
    } else if l == "shift"@ {
        HotkeyModifiers { control: m.control, alt: m.alt, shift: true, super_key: m.super_key }
    } else {
        HotkeyModifiers { control: m.control, alt: m.alt, shift: m.shift, super_key: true }
    }
}

/// What a hotkey string such as `"ctrl+alt+1"` stands for: its `+`-separated
/// pieces, trimmed, are scanned for modifiers and the key name, and the key
/// name, lower-cased, must name a known key.
pub open spec fn parse_hotkey_spec(s: Seq<char>) -> Option<HotkeySpec> {
    let parts = split_on(s, '+').map_values(|p: Seq<char>| trim_text(p));
    let (m, k) = scan_hotkey(parts);
    match k {
        Some(k) => match key_code_spec(lowercase(k)) {
            Some(key) => Some(HotkeySpec { modifiers: m, key }),
            None => None,
        },
        None => None,
    }
}

/// Modifiers and key name from pieces already lower-cased: a piece naming a
/// modifier sets it; the last other piece is the key name.
pub open spec fn scan_lowered(parts: Seq<Seq<char>>) -> (HotkeyModifiers, Option<Seq<char>>)
    decreases parts.len(),
{
    if parts.len() == 0 {
        (no_modifiers(), None)
    } else {
        let (m, k) = scan_lowered(parts.drop_last());
        let l = parts.last();
        if is_modifier_name(l) {
            (with_modifier(m, l), k)
        } else {
            (m, Some(l))
        }
    }
}

/// The hotkey that trimmed, lower-cased pieces stand for: the modifiers they
/// name, and the key named by the last other piece, when there is one and it
/// is a known key.
pub open spec fn hotkey_from_lowered_spec(parts: Seq<Seq<char>>) -> Option<HotkeySpec> {
    let (m, k) = scan_lowered(parts);
    match k {
        Some(k) => match key_code_spec(k) {
            Some(key) => Some(HotkeySpec { modifiers: m, key }),
            None => None,
        },
        None => None,
    }
}

/// The lower-cased pieces scan as the raw pieces do, with the key name lower-cased.
proof fn lemma_scan_lowered(parts: Seq<Seq<char>>)
    ensures
        scan_lowered(parts.map_values(|p: Seq<char>| lowercase(p))).0 == scan_hotkey(parts).0,
        scan_lowered(parts.map_values(|p: Seq<char>| lowercase(p))).1 == match scan_hotkey(parts).1 {
            Some(k) => Some(lowercase(k)),
            None => None,
        },
    decreases parts.len(),
{
    let lp = parts.map_values(|p: Seq<char>| lowercase(p));
    if parts.len() > 0 {
        assert(lp.drop_last() =~= parts.drop_last().map_values(|p: Seq<char>| lowercase(p)));
        lemma_scan_lowered(parts.drop_last());
        assert(lp.last() == lowercase(parts.last()));
    }
}

/// The hotkey that trimmed, lower-cased pieces of a hotkey string stand for.
pub fn hotkey_from_lowered_parts(parts: &Vec<String>) -> (hotkey: Option<HotkeySpec>)
    ensures
        hotkey == hotkey_from_lowered_spec(texts(parts@)),
{
    let ghost lp = texts(parts@);
    let mut control = false;
    let mut alt = false;
    let mut shift = false;
    let mut super_key = false;
    let mut key_at: Option<usize> = None;
    let mut i: usize = 0;
    while i < parts.len()
        invariant
            lp == texts(parts@),
            0 <= i <= parts@.len(),
            scan_lowered(lp.take(i as int)).0 == (HotkeyModifiers { control, alt, shift, super_key }),
            match key_at {
                Some(j) => j < i && scan_lowered(lp.take(i as int)).1 == Some(lp[j as int]),
                None => scan_lowered(lp.take(i as int)).1 is None,
            },
        decreases parts@.len() - i,
    {
        assert(lp.take(i + 1).drop_last() =~= lp.take(i as int));
        assert(lp.take(i + 1).last() == parts@[i as int]@);
        let part = &parts[i];
        if *part == String::from_str("ctrl") || *part == String::from_str("control") {
            control = true;
        } else if *part == String::from_str("alt") {
            alt = true;
        } else if *part == String::from_str("shift") {
            shift = true;
        } else if *part == String::from_str("super") || *part == String::from_str("win") || *part
            == String::from_str("meta") {
            super_key = true;
        } else {
            key_at = Some(i);
        }
        i = i + 1;
    }
    assert(lp.take(i as int) =~= lp);
    match key_at {
        Some(j) => match key_code(&parts[j]) {
            Some(key) => Some(
                HotkeySpec { modifiers: HotkeyModifiers { control, alt, shift, super_key }, key },
            ),
            None => None,
        },
        None => None,
    }
}

/// Parse a hotkey string like "ctrl+alt+1". Modifier names are `ctrl` or
/// `control`, `alt`, `shift`, and `super`, `win` or `meta`, in any case;
/// `None` when the key is missing or unknown.
pub fn parse_hotkey(s: &str) -> (hotkey: Option<HotkeySpec>)
    ensures
        hotkey == parse_hotkey_spec(s@),
{
    let cs = chars_of(s);
    let raw = split_chars(&cs, '+');
    let ghost parts = split_on(s@, '+').map_values(|p: Seq<char>| trim_text(p));
    let ghost lp = parts.map_values(|p: Seq<char>| lowercase(p));
    let mut lowered: Vec<String> = Vec::new();
    let mut i: usize = 0;
    while i < raw.len()
        invariant
            pieces(raw@) == split_on(s@, '+'),
            parts == split_on(s@, '+').map_values(|p: Seq<char>| trim_text(p)),
            lp == parts.map_values(|p: Seq<char>| lowercase(p)),
            0 <= i <= raw@.len(),
            texts(lowered@) == lp.take(i as int),
        decreases raw@.len() - i,
    {
        let part = trim_chars(&raw[i]);
        assert(part@ == parts[i as int]);
        let text = string_of(&part);
        let lower = to_lowercase(text.as_str());
        let ghost before = lowered@;
        lowered.push(lower);
        assert(texts(lowered@) =~= texts(before).push(lower@));
        assert(lp.take(i + 1) =~= lp.take(i as int).push(lp[i as int]));
        i = i + 1;
    }
    assert(lp.take(i as int) =~= lp);
    proof {
        lemma_scan_lowered(parts);
    }
    hotkey_from_lowered_parts(&lowered)
}

} // verus!
