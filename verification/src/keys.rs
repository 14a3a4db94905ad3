use vstd::prelude::*;

verus! {

use crate::text::chars_of;
use crate::text::text_eq;

/// A key role tracked as a set member during matching, plus the wildcard
/// `Any`, which real input never produces.
#[derive(Debug, Clone, Copy, PartialEq, Eq, Structural, Hash)]
pub enum Modifier {
    Super,
    Alt,
    Altgr,
    Control,
    Shift,
    Any,
}

/// The physical-key-to-modifier table: left and right variants of a
/// modifier key collapse onto one `Modifier`.
pub open spec fn spec_modifier_of_key(code: u16) -> Option<Modifier> {
    if code == 125 || code == 126 {
        Some(Modifier::Super)
    } else if code == 56 {
        Some(Modifier::Alt)
    } else if code == 100 {
        Some(Modifier::Altgr)
    } else if code == 29 || code == 97 {
        Some(Modifier::Control)
    } else if code == 42 || code == 54 {
        Some(Modifier::Shift)
    } else {
        None
    }
}

pub fn modifier_of_key(code: u16) -> (r: Option<Modifier>)
    ensures
        r == spec_modifier_of_key(code),
{
    if code == 125 || code == 126 {
        Some(Modifier::Super)
    } else if code == 56 {
        Some(Modifier::Alt)
    } else if code == 100 {
        Some(Modifier::Altgr)
    } else if code == 29 || code == 97 {
        Some(Modifier::Control)
    } else if code == 42 || code == 54 {
        Some(Modifier::Shift)
    } else {
        None
    }
}

fn is_name(t: &Vec<char>, s: &str) -> (r: bool)
    ensures
        r == (t@ == s@),
{
    let lit = chars_of(s);
    text_eq(t, &lit)
}

fn key_alnum(t: &Vec<char>) -> (r: Option<u16>)
    ensures
        r == spec_key_alnum(t@),
{
    if is_name(t, "q") {
        Some(16)
    } else if is_name(t, "w") {
        Some(17)
    } else if is_name(t, "e") {
        Some(18)
    } else if is_name(t, "r") {
        Some(19)
    } else if is_name(t, "t") {
        Some(20)
    } else if is_name(t, "y") {
        Some(21)
    } else if is_name(t, "u") {
        Some(22)
    } else if is_name(t, "i") {
        Some(23)
    } else if is_name(t, "o") {
        Some(24)
    } else if is_name(t, "p") {
        Some(25)
    } else if is_name(t, "a") {
        Some(30)
    } else if is_name(t, "s") {
        Some(31)
    } else if is_name(t, "d") {
        Some(32)
    } else if is_name(t, "f") {
        Some(33)
    } else if is_name(t, "g") {
        Some(34)
    } else if is_name(t, "h") {
        Some(35)
    } else if is_name(t, "j") {
        Some(36)
    } else if is_name(t, "k") {
        Some(37)
    } else if is_name(t, "l") {
        Some(38)
    } else if is_name(t, "z") {
        Some(44)
    } else if is_name(t, "x") {
        Some(45)
    } else if is_name(t, "c") {
        Some(46)
    } else if is_name(t, "v") {
        Some(47)
    } else if is_name(t, "b") {
        Some(48)
    } else if is_name(t, "n") {
        Some(49)
    } else if is_name(t, "m") {
        Some(50)
    } else if is_name(t, "1") {
        Some(2)
    } else if is_name(t, "2") {
        Some(3)
    } else if is_name(t, "3") {
        Some(4)
    } else if is_name(t, "4") {
        Some(5)
    } else if is_name(t, "5") {
        Some(6)
    } else if is_name(t, "6") {
        Some(7)
    } else if is_name(t, "7") {
        Some(8)
    } else if is_name(t, "8") {
        Some(9)
    } else if is_name(t, "9") {
        Some(10)
    } else if is_name(t, "0") {
        Some(11)
    } else {
        None
    }
}

pub open spec fn spec_key_alnum(s: Seq<char>) -> Option<u16> {
    if s == "q"@ {
        Some(16u16)
    } else if s == "w"@ {
        Some(17u16)
    } else if s == "e"@ {
        Some(18u16)
    } else if s == "r"@ {
        Some(19u16)
    } else if s == "t"@ {
        Some(20u16)
    } else if s == "y"@ {
        Some(21u16)
    } else if s == "u"@ {
        Some(22u16)
    } else if s == "i"@ {
        Some(23u16)
    } else if s == "o"@ {
        Some(24u16)
    } else if s == "p"@ {
        Some(25u16)
    } else if s == "a"@ {
        Some(30u16)
    } else if s == "s"@ {
        Some(31u16)
    } else if s == "d"@ {
        Some(32u16)
    } else if s == "f"@ {
        Some(33u16)
    } else if s == "g"@ {
        Some(34u16)
    } else if s == "h"@ {
        Some(35u16)
    } else if s == "j"@ {
        Some(36u16)
    } else if s == "k"@ {
        Some(37u16)
    } else if s == "l"@ {
        Some(38u16)
    } else if s == "z"@ {
        Some(44u16)
    } else if s == "x"@ {
        Some(45u16)
    } else if s == "c"@ {
        Some(46u16)
    } else if s == "v"@ {
        Some(47u16)
    } else if s == "b"@ {
        Some(48u16)
    } else if s == "n"@ {
        Some(49u16)
    } else if s == "m"@ {
        Some(50u16)
    } else if s == "1"@ {
        Some(2u16)
    } else if s == "2"@ {
        Some(3u16)
    } else if s == "3"@ {
        Some(4u16)
    } else if s == "4"@ {
        Some(5u16)
    } else if s == "5"@ {
        Some(6u16)
    } else if s == "6"@ {
        Some(7u16)
    } else if s == "7"@ {
        Some(8u16)
    } else if s == "8"@ {
        Some(9u16)
    } else if s == "9"@ {
        Some(10u16)
    } else if s == "0"@ {
        Some(11u16)
    } else {
        None
    }
}

fn key_named(t: &Vec<char>) -> (r: Option<u16>)
    ensures
        r == spec_key_named(t@),
{
    if is_name(t, "escape") {
        Some(1)
    } else if is_name(t, "backspace") {
        Some(14)
    } else if is_name(t, "capslock") {
        Some(58)
    } else if is_name(t, "return") {
        Some(28)
    } else if is_name(t, "enter") {
        Some(28)
    } else if is_name(t, "tab") {
        Some(15)
    } else if is_name(t, "space") {
        Some(57)
    } else if is_name(t, "plus") {
        Some(78)
    } else if is_name(t, "minus") {
        Some(12)
    } else if is_name(t, "-") {
        Some(12)
    } else if is_name(t, "equal") {
        Some(13)
    } else if is_name(t, "=") {
        Some(13)
    } else if is_name(t, "grave") {
        Some(41)
    } else if is_name(t, "`") {
        Some(41)
    } else if is_name(t, "print") {
        Some(99)
    } else if is_name(t, "volumeup") {
        Some(115)
    } else if is_name(t, "xf86audioraisevolume") {
        Some(115)
    } else if is_name(t, "volumedown") {
        Some(114)
    } else if is_name(t, "xf86audiolowervolume") {
        Some(114)
    } else if is_name(t, "mute") {
        Some(113)
    } else if is_name(t, "xf86audiomute") {
        Some(113)
    } else if is_name(t, "brightnessup") {
        Some(225)
    } else if is_name(t, "xf86monbrightnessup") {
        Some(225)
    } else if is_name(t, "brightnessdown") {
        Some(224)
    } else if is_name(t, "xf86monbrightnessdown") {
        Some(224)
    } else if is_name(t, "xf86audioplay") {
        Some(164)
    } else if is_name(t, "xf86audioprev") {
        Some(165)
    } else if is_name(t, "xf86audionext") {
        Some(163)
    } else if is_name(t, "xf86audiostop") {
        Some(128)
    } else if is_name(t, "xf86audiomedia") {
        Some(226)
    } else if is_name(t, ",") {
        Some(51)
    } else if is_name(t, "comma") {
        Some(51)
    } else if is_name(t, ".") {
        Some(52)
    } else if is_name(t, "dot") {
        Some(52)
    } else if is_name(t, "period") {
        Some(52)
    } else if is_name(t, "/") {
        Some(53)
    } else if is_name(t, "question") {
        Some(214)
    } else if is_name(t, "slash") {
        Some(53)
    } else if is_name(t, "backslash") {
        Some(43)
    } else if is_name(t, "leftbrace") {
        Some(26)
    } else if is_name(t, "[") {
        Some(26)
    } else if is_name(t, "bracketleft") {
        Some(26)
    } else if is_name(t, "rightbrace") {
        Some(27)
    } else if is_name(t, "]") {
        Some(27)
    } else if is_name(t, "bracketright") {
        Some(27)
    } else if is_name(t, ";") {
        Some(39)
    } else if is_name(t, "semicolon") {
        Some(39)
    } else if is_name(t, "\'") {
        Some(40)
    } else if is_name(t, "apostrophe") {
        Some(40)
    } else if is_name(t, "left") {
        Some(105)
    } else if is_name(t, "right") {
        Some(106)
    } else if is_name(t, "up") {
        Some(103)
    } else if is_name(t, "down") {
        Some(108)
    } else if is_name(t, "pause") {
        Some(119)
    } else if is_name(t, "home") {
        Some(102)
    } else if is_name(t, "delete") {
        Some(111)
    } else if is_name(t, "insert") {
        Some(110)
    } else if is_name(t, "end") {
        Some(107)
    } else if is_name(t, "prior") {
        Some(109)
    } else if is_name(t, "next") {
        Some(104)
    } else if is_name(t, "pagedown") {
        Some(109)
    } else if is_name(t, "pageup") {
        Some(104)
    } else {
        None
    }
}

pub open spec fn spec_key_named(s: Seq<char>) -> Option<u16> {
    if s == "escape"@ {
        Some(1u16)
    } else if s == "backspace"@ {
        Some(14u16)
    } else if s == "capslock"@ {
        Some(58u16)
    } else if s == "return"@ {
        Some(28u16)
    } else if s == "enter"@ {
        Some(28u16)
    } else if s == "tab"@ {
        Some(15u16)
    } else if s == "space"@ {
        Some(57u16)
    } else if s == "plus"@ {
        Some(78u16)
    } else if s == "minus"@ {
        Some(12u16)
    } else if s == "-"@ {
        Some(12u16)
    } else if s == "equal"@ {
        Some(13u16)
    } else if s == "="@ {
        Some(13u16)
    } else if s == "grave"@ {
        Some(41u16)
    } else if s == "`"@ {
        Some(41u16)
    } else if s == "print"@ {
        Some(99u16)
    } else if s == "volumeup"@ {
        Some(115u16)
    } else if s == "xf86audioraisevolume"@ {
        Some(115u16)
    } else if s == "volumedown"@ {
        Some(114u16)
    } else if s == "xf86audiolowervolume"@ {
        Some(114u16)
    } else if s == "mute"@ {
        Some(113u16)
    } else if s == "xf86audiomute"@ {
        Some(113u16)
    } else if s == "brightnessup"@ {
        Some(225u16)
    } else if s == "xf86monbrightnessup"@ {
        Some(225u16)
    } else if s == "brightnessdown"@ {
        Some(224u16)
    } else if s == "xf86monbrightnessdown"@ {
        Some(224u16)
    } else if s == "xf86audioplay"@ {
        Some(164u16)
    } else if s == "xf86audioprev"@ {
        Some(165u16)
    } else if s == "xf86audionext"@ {
        Some(163u16)
    } else if s == "xf86audiostop"@ {
        Some(128u16)
    } else if s == "xf86audiomedia"@ {
        Some(226u16)
    } else if s == ","@ {
        Some(51u16)
    } else if s == "comma"@ {
        Some(51u16)
    } else if s == "."@ {
        Some(52u16)
    } else if s == "dot"@ {
        Some(52u16)
    } else if s == "period"@ {
        Some(52u16)
    } else if s == "/"@ {
        Some(53u16)
    } else if s == "question"@ {
        Some(214u16)
    } else if s == "slash"@ {
        Some(53u16)
    } else if s == "backslash"@ {
        Some(43u16)
    } else if s == "leftbrace"@ {
        Some(26u16)
    } else if s == "["@ {
        Some(26u16)
    } else if s == "bracketleft"@ {
        Some(26u16)
    } else if s == "rightbrace"@ {
        Some(27u16)
    } else if s == "]"@ {
        Some(27u16)
    } else if s == "bracketright"@ {
        Some(27u16)
    } else if s == ";"@ {
        Some(39u16)
    } else if s == "semicolon"@ {
        Some(39u16)
    } else if s == "\'"@ {
        Some(40u16)
    } else if s == "apostrophe"@ {
        Some(40u16)
    } else if s == "left"@ {
        Some(105u16)
    } else if s == "right"@ {
        Some(106u16)
    } else if s == "up"@ {
        Some(103u16)
    } else if s == "down"@ {
        Some(108u16)
    } else if s == "pause"@ {
        Some(119u16)
    } else if s == "home"@ {
        Some(102u16)
    } else if s == "delete"@ {
        Some(111u16)
    } else if s == "insert"@ {
        Some(110u16)
    } else if s == "end"@ {
        Some(107u16)
    } else if s == "prior"@ {
        Some(109u16)
    } else if s == "next"@ {
        Some(104u16)
    } else if s == "pagedown"@ {
        Some(109u16)
    } else if s == "pageup"@ {
        Some(104u16)
    } else {
        None
    }
}

fn key_fkey(t: &Vec<char>) -> (r: Option<u16>)
    ensures
        r == spec_key_fkey(t@),
{
    if is_name(t, "f1") {
        Some(59)
    } else if is_name(t, "f2") {
        Some(60)
    } else if is_name(t, "f3") {
        Some(61)
    } else if is_name(t, "f4") {
        Some(62)
    } else if is_name(t, "f5") {
        Some(63)
    } else if is_name(t, "f6") {
        Some(64)
    } else if is_name(t, "f7") {
        Some(65)
    } else if is_name(t, "f8") {
        Some(66)
    } else if is_name(t, "f9") {
        Some(67)
    } else if is_name(t, "f10") {
        Some(68)
    } else if is_name(t, "f11") {
        Some(87)
    } else if is_name(t, "f12") {
        Some(88)
    } else if is_name(t, "f13") {
        Some(183)
    } else if is_name(t, "f14") {
        Some(184)
    } else if is_name(t, "f15") {
        Some(185)
    } else if is_name(t, "f16") {
        Some(186)
    } else if is_name(t, "f17") {
        Some(187)
    } else if is_name(t, "f18") {
        Some(188)
    } else if is_name(t, "f19") {
        Some(189)
    } else if is_name(t, "f20") {
        Some(190)
    } else if is_name(t, "f21") {
        Some(191)
    } else if is_name(t, "f22") {
        Some(192)
    } else if is_name(t, "f23") {
        Some(193)
    } else if is_name(t, "f24") {
        Some(194)
    } else {
        None
    }
}

pub open spec fn spec_key_fkey(s: Seq<char>) -> Option<u16> {
    if s == "f1"@ {
        Some(59u16)
    } else if s == "f2"@ {
        Some(60u16)
    } else if s == "f3"@ {
        Some(61u16)
    } else if s == "f4"@ {
        Some(62u16)
    } else if s == "f5"@ {
        Some(63u16)
    } else if s == "f6"@ {
        Some(64u16)
    } else if s == "f7"@ {
        Some(65u16)
    } else if s == "f8"@ {
        Some(66u16)
    } else if s == "f9"@ {
        Some(67u16)
    } else if s == "f10"@ {
        Some(68u16)
    } else if s == "f11"@ {
        Some(87u16)
    } else if s == "f12"@ {
        Some(88u16)
    } else if s == "f13"@ {
        Some(183u16)
    } else if s == "f14"@ {
        Some(184u16)
    } else if s == "f15"@ {
        Some(185u16)
    } else if s == "f16"@ {
        Some(186u16)
    } else if s == "f17"@ {
        Some(187u16)
    } else if s == "f18"@ {
        Some(188u16)
    } else if s == "f19"@ {
        Some(189u16)
    } else if s == "f20"@ {
        Some(190u16)
    } else if s == "f21"@ {
        Some(191u16)
    } else if s == "f22"@ {
        Some(192u16)
    } else if s == "f23"@ {
        Some(193u16)
    } else if s == "f24"@ {
        Some(194u16)
    } else {
        None
    }
}

/// The key names the configuration accepts, each with the code of the
/// key it stands for.
pub open spec fn spec_key_code(s: Seq<char>) -> Option<u16> {
    if spec_key_alnum(s) is Some {
        spec_key_alnum(s)
    } else if spec_key_named(s) is Some {
        spec_key_named(s)
    } else {
        spec_key_fkey(s)
    }
}

pub fn key_code_of(t: &Vec<char>) -> (r: Option<u16>)
    ensures
        r == spec_key_code(t@),
{
    let a = key_alnum(t);
    if a.is_some() {
        return a;
    }
    let n = key_named(t);
    if n.is_some() {
        return n;
    }
    key_fkey(t)
}

/// The modifier names the configuration accepts.
pub open spec fn spec_mod_of_name(s: Seq<char>) -> Option<Modifier> {
    if s == "ctrl"@ || s == "control"@ {
        Some(Modifier::Control)
    } else if s == "super"@ || s == "mod4"@ {
        Some(Modifier::Super)
    } else if s == "alt"@ || s == "mod1"@ {
        Some(Modifier::Alt)
    } else if s == "altgr"@ || s == "mod5"@ {
        Some(Modifier::Altgr)
    } else if s == "shift"@ {
        Some(Modifier::Shift)
    } else if s == "any"@ {
        Some(Modifier::Any)
    } else {
        None
    }
}

pub fn mod_of_name(t: &Vec<char>) -> (r: Option<Modifier>)
    ensures
        r == spec_mod_of_name(t@),
{
    if is_name(t, "ctrl") || is_name(t, "control") {
        Some(Modifier::Control)
    } else if is_name(t, "super") || is_name(t, "mod4") {
        Some(Modifier::Super)
    } else if is_name(t, "alt") || is_name(t, "mod1") {
        Some(Modifier::Alt)
    } else if is_name(t, "altgr") || is_name(t, "mod5") {
        Some(Modifier::Altgr)
    } else if is_name(t, "shift") {
        Some(Modifier::Shift)
    } else if is_name(t, "any") {
        Some(Modifier::Any)
    } else {
        None
    }
}

} // verus!
