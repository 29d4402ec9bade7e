//! What keys can be hotkeys, and how hotkeys and colors are written.

use vstd::prelude::*;

use crate::hotkeys::{
    char_token, function_number, key_token, named_token, physical_key, pressed_hotkey, short_code,
    HotkeyField, HotkeyView,
};
use crate::settings::{
    accent_key, color_text, hex_char, hex_color, hex_number, hex_value, language_name,
    offered_languages,
};
use crate::text::{decimal, decimal_writes_the_number, has_prefix, is_digit};

verus! {

/// The hotkey of a key with the given name, whatever modifiers are held with it.
pub open spec fn hotkey_of(
    control: bool,
    alt: bool,
    shift: bool,
    meta: bool,
    code: Seq<char>,
) -> Option<HotkeyView> {
    Some(HotkeyView { control, alt, shift, meta, code })
}

proof fn lemma_short_names(key: Seq<char>)
    requires
        key.len() == 1,
    ensures
        named_token(key) is None,
{
    reveal_strlit("space");
    reveal_strlit("enter");
    reveal_strlit("tab");
    reveal_strlit("backspace");
    reveal_strlit("delete");
    reveal_strlit("home");
    reveal_strlit("end");
    reveal_strlit("pageup");
    reveal_strlit("pagedown");
    reveal_strlit("insert");
    reveal_strlit("up");
    reveal_strlit("down");
    reveal_strlit("left");
    reveal_strlit("right");
    reveal_strlit("capslock");
    reveal_strlit("numlock");
    reveal_strlit("scrolllock");
    reveal_strlit("printscreen");
    reveal_strlit("pause");
}

/// A key pressed by itself is no hotkey.
pub proof fn hotkeys_need_a_modifier(key: Seq<char>)
    ensures
        pressed_hotkey(false, false, false, false, key) is None,
{
}

/// A letter in either case and a digit are hotkeys by their physical keys, with the
/// modifiers that were held.
pub proof fn letters_and_digits_are_hotkeys(
    control: bool,
    alt: bool,
    shift: bool,
    meta: bool,
    c: char,
    upper: char,
)
    requires
        control || alt || shift || meta,
    ensures
        'a' <= c && c <= 'z' && upper as u32 == c as u32 - 32 ==> pressed_hotkey(
            control,
            alt,
            shift,
            meta,
            seq![c],
        ) == hotkey_of(control, alt, shift, meta, "Key"@ + seq![upper]),
        'A' <= c && c <= 'Z' ==> pressed_hotkey(control, alt, shift, meta, seq![c]) == hotkey_of(
            control,
            alt,
            shift,
            meta,
            "Key"@ + seq![c],
        ),
        '0' <= c && c <= '9' ==> pressed_hotkey(control, alt, shift, meta, seq![c]) == hotkey_of(
            control,
            alt,
            shift,
            meta,
            "Digit"@ + seq![c],
        ),
{
    lemma_short_names(seq![c]);
    if 'a' <= c && c <= 'z' && upper as u32 == c as u32 - 32 {
        let t = ((c as u8) - 32) as u8 as char;
        lemma_same_char(t, upper);
        assert(char_token(c) == Some(seq![upper]));
        assert(seq![upper][0] == upper);
        assert(physical_key(seq![upper]) == "Key"@ + seq![upper]);
    }
    if 'A' <= c && c <= 'Z' {
        assert(physical_key(seq![c]) == "Key"@ + seq![c]);
    }
    if '0' <= c && c <= '9' {
        assert(physical_key(seq![c]) == "Digit"@ + seq![c]);
    }
}

proof fn lemma_same_char(a: char, b: char)
    requires
        a as u32 == b as u32,
    ensures
        a == b,
{
}

/// The physical keys of the punctuation characters.
pub open spec fn punctuation_key(c: char) -> Option<Seq<char>> {
    match c {
        '-' => Some("Minus"@),
        '=' => Some("Equal"@),
        '[' => Some("BracketLeft"@),
        ']' => Some("BracketRight"@),
        '\\' => Some("Backslash"@),
        ';' => Some("Semicolon"@),
        '\'' => Some("Quote"@),
        ',' => Some("Comma"@),
        '.' => Some("Period"@),
        '/' => Some("Slash"@),
        '`' => Some("Backquote"@),
        _ => None,
    }
}

/// A punctuation character is a hotkey by its physical key; any other single character
/// is none.
pub proof fn punctuation_characters_are_hotkeys(
    control: bool,
    alt: bool,
    shift: bool,
    meta: bool,
    c: char,
)
    requires
        control || alt || shift || meta,
        !('a' <= c && c <= 'z') && !('A' <= c && c <= 'Z') && !('0' <= c && c <= '9'),
    ensures
        pressed_hotkey(control, alt, shift, meta, seq![c]) == (match punctuation_key(c) {
            Some(code) => hotkey_of(control, alt, shift, meta, code),
            None => None,
        }),
{
    lemma_short_names(seq![c]);
    reveal_strlit("Minus");
    reveal_strlit("Equal");
    reveal_strlit("BracketLeft");
    reveal_strlit("BracketRight");
    reveal_strlit("Backslash");
    reveal_strlit("Semicolon");
    reveal_strlit("Quote");
    reveal_strlit("Comma");
    reveal_strlit("Period");
    reveal_strlit("Slash");
    reveal_strlit("Backquote");
}

/// The named keys that can be hotkeys, and their physical keys.
pub open spec fn named_keys() -> Seq<(Seq<char>, Seq<char>)> {
    seq![
        ("space"@, "Space"@),
        ("enter"@, "Enter"@),
        ("tab"@, "Tab"@),
        ("backspace"@, "Backspace"@),
        ("delete"@, "Delete"@),
        ("home"@, "Home"@),
        ("end"@, "End"@),
        ("pageup"@, "PageUp"@),
        ("pagedown"@, "PageDown"@),
        ("insert"@, "Insert"@),
        ("up"@, "ArrowUp"@),
        ("down"@, "ArrowDown"@),
        ("left"@, "ArrowLeft"@),
        ("right"@, "ArrowRight"@),
        ("capslock"@, "CapsLock"@),
        ("numlock"@, "NumLock"@),
        ("scrolllock"@, "ScrollLock"@),
        ("printscreen"@, "PrintScreen"@),
        ("pause"@, "Pause"@),
    ]
}

#[verifier::rlimit(40)]
proof fn lemma_named(i: int)
    requires
        0 <= i < named_keys().len(),
    ensures
        named_token(named_keys()[i].0) == Some(named_keys()[i].1),
        named_keys()[i].1.len() >= 2,
{
    reveal_strlit("space");
    reveal_strlit("enter");
    reveal_strlit("tab");
    reveal_strlit("backspace");
    reveal_strlit("delete");
    reveal_strlit("home");
    reveal_strlit("end");
    reveal_strlit("pageup");
    reveal_strlit("pagedown");
    reveal_strlit("insert");
    reveal_strlit("up");
    reveal_strlit("down");
    reveal_strlit("left");
    reveal_strlit("right");
    reveal_strlit("capslock");
    reveal_strlit("numlock");
    reveal_strlit("scrolllock");
    reveal_strlit("printscreen");
    reveal_strlit("pause");
    reveal_strlit("Space");
    reveal_strlit("Enter");
    reveal_strlit("Tab");
    reveal_strlit("Backspace");
    reveal_strlit("Delete");
    reveal_strlit("Home");
    reveal_strlit("End");
    reveal_strlit("PageUp");
    reveal_strlit("PageDown");
    reveal_strlit("Insert");
    reveal_strlit("ArrowUp");
    reveal_strlit("ArrowDown");
    reveal_strlit("ArrowLeft");
    reveal_strlit("ArrowRight");
    reveal_strlit("CapsLock");
    reveal_strlit("NumLock");
    reveal_strlit("ScrollLock");
    reveal_strlit("PrintScreen");
    reveal_strlit("Pause");
    let key = named_keys()[i].0;
    let n = key.len();
    let c = key[0];
    if i == 0 {
        assert(n == 5 && c == 's');
    } else if i == 1 {
        assert(n == 5 && c == 'e');
    } else if i == 2 {
        assert(n == 3 && c == 't');
    } else if i == 3 {
        assert(n == 9);
    } else if i == 4 {
        assert(n == 6 && c == 'd');
    } else if i == 5 {
        assert(n == 4 && c == 'h');
    } else if i == 6 {
        assert(n == 3 && c == 'e');
    } else if i == 7 {
        assert(n == 6 && c == 'p');
    } else if i == 8 {
        assert(n == 8 && c == 'p');
    } else if i == 9 {
        assert(n == 6 && c == 'i');
    } else if i == 10 {
        assert(n == 2);
    } else if i == 11 {
        assert(n == 4 && c == 'd');
    } else if i == 12 {
        assert(n == 4 && c == 'l');
    } else if i == 13 {
        assert(n == 5 && c == 'r');
    } else if i == 14 {
        assert(n == 8 && c == 'c');
    } else if i == 15 {
        assert(n == 7);
    } else if i == 16 {
        assert(n == 10);
    } else if i == 17 {
        assert(n == 11);
    } else {
        assert(n == 5 && c == 'p');
    }
    lemma_first_letters();
}

proof fn lemma_first_letters()
    ensures
        "space"@.len() == 5 && "space"@[0] == 's',
        "enter"@.len() == 5 && "enter"@[0] == 'e',
        "tab"@.len() == 3 && "tab"@[0] == 't',
        "backspace"@.len() == 9,
        "delete"@.len() == 6 && "delete"@[0] == 'd',
        "home"@.len() == 4 && "home"@[0] == 'h',
        "end"@.len() == 3 && "end"@[0] == 'e',
        "pageup"@.len() == 6 && "pageup"@[0] == 'p',
        "pagedown"@.len() == 8 && "pagedown"@[0] == 'p',
        "insert"@.len() == 6 && "insert"@[0] == 'i',
        "up"@.len() == 2,
        "down"@.len() == 4 && "down"@[0] == 'd',
        "left"@.len() == 4 && "left"@[0] == 'l',
        "right"@.len() == 5 && "right"@[0] == 'r',
        "capslock"@.len() == 8 && "capslock"@[0] == 'c',
        "numlock"@.len() == 7,
        "scrolllock"@.len() == 10,
        "printscreen"@.len() == 11,
        "pause"@.len() == 5 && "pause"@[0] == 'p',
{
    reveal_strlit("space");
    reveal_strlit("enter");
    reveal_strlit("tab");
    reveal_strlit("backspace");
    reveal_strlit("delete");
    reveal_strlit("home");
    reveal_strlit("end");
    reveal_strlit("pageup");
    reveal_strlit("pagedown");
    reveal_strlit("insert");
    reveal_strlit("up");
    reveal_strlit("down");
    reveal_strlit("left");
    reveal_strlit("right");
    reveal_strlit("capslock");
    reveal_strlit("numlock");
    reveal_strlit("scrolllock");
    reveal_strlit("printscreen");
    reveal_strlit("pause");
}

/// The named keys are hotkeys by their physical keys.
pub proof fn named_keys_are_hotkeys(
    control: bool,
    alt: bool,
    shift: bool,
    meta: bool,
    i: int,
)
    requires
        control || alt || shift || meta,
        0 <= i < named_keys().len(),
    ensures
        pressed_hotkey(control, alt, shift, meta, named_keys()[i].0) == hotkey_of(
            control,
            alt,
            shift,
            meta,
            named_keys()[i].1,
        ),
{
    lemma_named(i);
}

proof fn lemma_not_named(key: Seq<char>)
    requires
        forall|i: int| 0 <= i < named_keys().len() ==> (#[trigger] named_keys()[i]).0 != key,
    ensures
        named_token(key) is None,
{
    let all = named_keys();
    assert(all[0].0 != key && all[1].0 != key && all[2].0 != key && all[3].0 != key && all[4].0
        != key);
    assert(all[5].0 != key && all[6].0 != key && all[7].0 != key && all[8].0 != key && all[9].0
        != key);
    assert(all[10].0 != key && all[11].0 != key && all[12].0 != key && all[13].0 != key
        && all[14].0 != key);
    assert(all[15].0 != key && all[16].0 != key && all[17].0 != key && all[18].0 != key);
}

/// The function keys from 1 to 24 are hotkeys by their names; any other name of more than
/// one character is none.
pub proof fn function_keys_are_hotkeys(
    control: bool,
    alt: bool,
    shift: bool,
    meta: bool,
    n: nat,
    key: Seq<char>,
)
    requires
        control || alt || shift || meta,
    ensures
        1 <= n <= 24 ==> pressed_hotkey(control, alt, shift, meta, seq!['f'] + decimal(n))
            == hotkey_of(control, alt, shift, meta, seq!['F'] + decimal(n)),
        n == 0 || n > 24 ==> pressed_hotkey(
            control,
            alt,
            shift,
            meta,
            seq!['f'] + decimal(n),
        ) is None,
        key.len() != 1 && (key.len() == 0 || key[0] != 'f') && (forall|i: int|
            0 <= i < named_keys().len() ==> (#[trigger] named_keys()[i]).0 != key)
            ==> pressed_hotkey(control, alt, shift, meta, key) is None,
{
    let d = decimal(n);
    let k = seq!['f'] + d;
    decimal_writes_the_number(n);
    assert(k[0] == 'f' && k[1] == d[0]);
    assert(is_digit(d[0]));
    assert(k.skip(1) =~= d);
    lemma_f_not_named(k);
    assert(function_number(k) == (if 1 <= n <= 24 {
        Some(n as int)
    } else {
        None
    }));
    let t = seq!['F'] + d;
    assert(t.len() >= 2);
    assert(key_token(k) == (if 1 <= n <= 24 {
        Some(t)
    } else {
        None
    }));
    if key.len() != 1 && (key.len() == 0 || key[0] != 'f') && (forall|i: int|
        0 <= i < named_keys().len() ==> (#[trigger] named_keys()[i]).0 != key) {
        lemma_not_named(key);
    }
}

proof fn lemma_f_not_named(key: Seq<char>)
    requires
        key.len() >= 2,
        key[0] == 'f',
    ensures
        named_token(key) is None,
{
    reveal_strlit("space");
    reveal_strlit("enter");
    reveal_strlit("tab");
    reveal_strlit("backspace");
    reveal_strlit("delete");
    reveal_strlit("home");
    reveal_strlit("end");
    reveal_strlit("pageup");
    reveal_strlit("pagedown");
    reveal_strlit("insert");
    reveal_strlit("up");
    reveal_strlit("down");
    reveal_strlit("left");
    reveal_strlit("right");
    reveal_strlit("capslock");
    reveal_strlit("numlock");
    reveal_strlit("scrolllock");
    reveal_strlit("printscreen");
    reveal_strlit("pause");
}

/// A hotkey is shown by its modifiers, each with a plus behind it, and its key: the
/// Windows key first, then control, alt and shift.
pub proof fn hotkeys_are_shown_with_their_modifiers(h: HotkeyView)
    ensures
        h.meta ==> h.label() == "Win + "@ + (HotkeyView { meta: false, ..h }).label(),
        !h.meta && h.control ==> h.label() == "Ctrl + "@ + (HotkeyView {
            control: false,
            ..h
        }).label(),
        !h.meta && !h.control && h.alt ==> h.label() == "Alt + "@ + (HotkeyView {
            alt: false,
            ..h
        }).label(),
        !h.meta && !h.control && !h.alt && h.shift ==> h.label() == "Shift + "@ + short_code(
            h.code,
        ),
        !h.meta && !h.control && !h.alt && !h.shift ==> h.label() == short_code(h.code),
{
    let code = short_code(h.code);
    let without_meta = HotkeyView { meta: false, ..h }.label();
    let without_control = HotkeyView { control: false, ..h }.label();
    let without_alt = HotkeyView { alt: false, ..h }.label();
    if h.meta {
        assert(h.label() =~= "Win + "@ + without_meta);
    } else if h.control {
        assert(h.label() =~= "Ctrl + "@ + without_control);
    } else if h.alt {
        assert(h.label() =~= "Alt + "@ + without_alt);
    } else if h.shift {
        assert(h.label() =~= "Shift + "@ + code);
    } else {
        assert(h.label() =~= code);
    }
}

/// A letter or a digit is shown as such, any other key by its name.
pub proof fn keys_are_shown_by_their_letters(code: Seq<char>, c: char)
    ensures
        short_code("Key"@ + seq![c]) == seq![c],
        short_code("Digit"@ + seq![c]) == seq![c],
        !has_prefix(code, "Key"@) && !has_prefix(code, "Digit"@) ==> short_code(code) == code,
{
    reveal_strlit("Key");
    reveal_strlit("Digit");
    let k = "Key"@ + seq![c];
    let d = "Digit"@ + seq![c];
    assert("Key"@.len() == 3 && "Digit"@.len() == 5);
    assert(k.take(3) =~= "Key"@);
    assert(k.skip(3) =~= seq![c]);
    assert(d.take(5) =~= "Digit"@);
    assert(d.take(3)[0] == 'D' && "Key"@[0] == 'K');
    assert(d.skip(5) =~= seq![c]);
}

/// A hotkey is stored by its modifiers, each with a plus behind it, and its physical
/// key: shift first, then control, alt and the Windows key.
pub proof fn hotkeys_are_stored_with_their_modifiers(h: HotkeyView)
    ensures
        h.shift ==> h.stored() == "shift+"@ + (HotkeyView { shift: false, ..h }).stored(),
        !h.shift && h.control ==> h.stored() == "control+"@ + (HotkeyView {
            control: false,
            ..h
        }).stored(),
        !h.shift && !h.control && h.alt ==> h.stored() == "alt+"@ + (HotkeyView {
            alt: false,
            ..h
        }).stored(),
        !h.shift && !h.control && !h.alt && h.meta ==> h.stored() == "meta+"@ + h.code,
        !h.shift && !h.control && !h.alt && !h.meta ==> h.stored() == h.code,
{
    let without_shift = HotkeyView { shift: false, ..h }.stored();
    let without_control = HotkeyView { control: false, ..h }.stored();
    let without_alt = HotkeyView { alt: false, ..h }.stored();
    if h.shift {
        assert(h.stored() =~= "shift+"@ + without_shift);
    } else if h.control {
        assert(h.stored() =~= "control+"@ + without_control);
    } else if h.alt {
        assert(h.stored() =~= "alt+"@ + without_alt);
    } else if h.meta {
        assert(h.stored() =~= "meta+"@ + h.code);
    } else {
        assert(h.stored() =~= h.code);
    }
}

/// Unless others are stored, control, alt and the space bar summon the launcher, and
/// control and the comma open the settings.
pub proof fn standard_hotkeys(field: HotkeyField)
    ensures
        field.standard() == (match field {
            HotkeyField::Summon => HotkeyView {
                control: true,
                alt: true,
                shift: false,
                meta: false,
                code: "Space"@,
            },
            HotkeyField::Settings => HotkeyView {
                control: true,
                alt: false,
                shift: false,
                meta: false,
                code: "Comma"@,
            },
        }),
{
}

/// Whether a character is the hexadecimal digit of a value, in either case.
pub open spec fn is_nibble(c: char, v: int) -> bool {
    ||| 0 <= v <= 9 && c as u32 == 48 + v
    ||| 10 <= v <= 15 && (c as u32 == 87 + v || c as u32 == 55 + v)
}

proof fn lemma_nibble(c: char)
    ensures
        crate::settings::is_hex(c) ==> is_nibble(c, hex_value(c)),
        forall|v: int| #[trigger] is_nibble(c, v) ==> crate::settings::is_hex(c) && hex_value(c)
            == v,
{
}

/// Six hexadecimal digits, in either case and with a sign before them or without, are
/// the color with these digits.
pub proof fn colors_are_read_by_their_digits(
    s: Seq<char>,
    a: int,
    b: int,
    c: int,
    d: int,
    e: int,
    f: int,
)
    requires
        s.len() == 6,
        is_nibble(s[0], a),
        is_nibble(s[1], b),
        is_nibble(s[2], c),
        is_nibble(s[3], d),
        is_nibble(s[4], e),
        is_nibble(s[5], f),
    ensures
        ({
            let color = a * 0x100000 + b * 0x10000 + c * 0x1000 + d * 0x100 + e * 0x10 + f;
            hex_color(s) == Some(color) && hex_color(seq!['#'] + s) == Some(color)
        }),
{
    lemma_nibble(s[0]);
    lemma_nibble(s[1]);
    lemma_nibble(s[2]);
    lemma_nibble(s[3]);
    lemma_nibble(s[4]);
    lemma_nibble(s[5]);
    assert((seq!['#'] + s).skip(1) =~= s);
    assert(crate::settings::all_hex(s));
    let s5 = s.drop_last();
    let s4 = s5.drop_last();
    let s3 = s4.drop_last();
    let s2 = s3.drop_last();
    let s1 = s2.drop_last();
    let s0 = s1.drop_last();
    assert(hex_number(s0) == 0);
    assert(s1.last() == s[0] && s2.last() == s[1] && s3.last() == s[2] && s4.last() == s[3]
        && s5.last() == s[4]);
    assert(hex_number(s1) == a);
    assert(hex_number(s2) == a * 16 + b);
    assert(hex_number(s3) == (a * 16 + b) * 16 + c);
    assert(hex_number(s4) == ((a * 16 + b) * 16 + c) * 16 + d);
    assert(hex_number(s5) == (((a * 16 + b) * 16 + c) * 16 + d) * 16 + e);
    assert(hex_number(s) == ((((a * 16 + b) * 16 + c) * 16 + d) * 16 + e) * 16 + f);
}

/// What is not six hexadecimal digits, behind a sign or by themselves, is no color.
pub proof fn other_texts_are_no_colors(text: Seq<char>, i: int)
    requires
        ({
            let s = if text.len() > 0 && text[0] == '#' {
                text.skip(1)
            } else {
                text
            };
            s.len() != 6 || (0 <= i < 6 && !('0' <= s[i] && s[i] <= '9') && !('a' <= s[i] && s[i]
                <= 'f') && !('A' <= s[i] && s[i] <= 'F'))
        }),
    ensures
        hex_color(text) is None,
{
    let s = if text.len() > 0 && text[0] == '#' {
        text.skip(1)
    } else {
        text
    };
    if s.len() == 6 {
        assert(!crate::settings::is_hex(s[i]));
    }
}

/// A color is written as a sign and six digits in lower case.
pub proof fn colors_are_written_in_six_digits(color: int, i: int)
    requires
        0 <= color <= 0xffffff,
        1 <= i <= 6,
    ensures
        color_text(color).len() == 7,
        color_text(color)[0] == '#',
        is_nibble(color_text(color)[1], color / 0x100000),
        is_nibble(color_text(color)[6], color % 16),
        !('A' <= color_text(color)[i] && color_text(color)[i] <= 'F'),
        hex_color(color_text(color)) == Some(color),
{
    crate::settings::color_is_read_back(color);
    assert(0 <= color / 0x100000 < 16);
    assert(hex_char(color % 16) == color_text(color)[6]);
}

/// The names of the colors that are offered; any other color has the name of the blue.
pub proof fn accents_have_names(color: u32)
    ensures
        accent_key(0x863bff) == "settings-theme-violet"@,
        accent_key(0x89b4fa) == "settings-theme-blue"@,
        accent_key(0x94e2d5) == "settings-theme-jade"@,
        accent_key(0xf38ba8) == "settings-theme-rose"@,
        accent_key(0xf9e2af) == "settings-theme-amber"@,
        color != 0x863bff && color != 0x94e2d5 && color != 0xf38ba8 && color != 0xf9e2af
            ==> accent_key(color) == "settings-theme-blue"@,
        crate::settings::is_preset(color) <==> color == 0x863bff || color == 0x89b4fa || color
            == 0x94e2d5 || color == 0xf38ba8 || color == 0xf9e2af,
{
}

/// Each language is offered once, under its own name, and any other is called by its code.
pub proof fn languages_are_offered_by_their_own_names(code: Seq<char>, i: int, j: int)
    requires
        0 <= i < j < offered_languages().len(),
    ensures
        offered_languages()[i].0 != offered_languages()[j].0,
        language_name("zh"@) == "中文"@,
        language_name("en"@) == "English"@,
        language_name("fr"@) == "Français"@,
        language_name("de"@) == "Deutsch"@,
        language_name("ru"@) == "Русский"@,
        language_name("ja"@) == "日本語"@,
        language_name("ko"@) == "한국어"@,
        (forall|k: int|
            0 <= k < offered_languages().len() ==> (#[trigger] offered_languages()[k]).0 != code)
            ==> language_name(code) == code,
{
    reveal_strlit("zh");
    reveal_strlit("en");
    reveal_strlit("fr");
    reveal_strlit("de");
    reveal_strlit("ru");
    reveal_strlit("ja");
    reveal_strlit("ko");
    let all = offered_languages();
    assert(all[0].0[0] == 'z' && all[1].0[0] == 'e' && all[2].0[0] == 'f' && all[3].0[0] == 'd');
    assert(all[4].0[0] == 'r' && all[5].0[0] == 'j' && all[6].0[0] == 'k');
}

} // verus!
