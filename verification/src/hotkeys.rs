//! Hotkeys: from key presses to bindings and back to text.

use vstd::prelude::*;

use crate::text::{
    all_digits, chars_of, decimal, has_prefix, number, opt_view, parse_digits, push_decimal, same,
    starts_with, string_of,
};

verus! {

/// A key with modifiers.
#[derive(Debug, PartialEq, Eq)]
pub struct Hotkey {
    pub control: bool,
    pub alt: bool,
    pub shift: bool,
    /// The Windows or command key.
    pub meta: bool,
    /// The name of the physical key, such as `KeyA` or `Space`.
    pub code: String,
}

/// What a [`Hotkey`] is.
pub struct HotkeyView {
    pub control: bool,
    pub alt: bool,
    pub shift: bool,
    pub meta: bool,
    pub code: Seq<char>,
}

impl View for Hotkey {
    type V = HotkeyView;

    open spec fn view(&self) -> HotkeyView {
        HotkeyView {
            control: self.control,
            alt: self.alt,
            shift: self.shift,
            meta: self.meta,
            code: self.code@,
        }
    }
}

/// The view of an optional hotkey.
pub open spec fn opt_hotkey(o: Option<Hotkey>) -> Option<HotkeyView> {
    match o {
        Some(h) => Some(h@),
        None => None,
    }
}

impl Clone for Hotkey {
    fn clone(&self) -> (r: Self)
        ensures
            r == *self,
    {
        Hotkey {
            control: self.control,
            alt: self.alt,
            shift: self.shift,
            meta: self.meta,
            code: self.code.clone(),
        }
    }
}

/// Which hotkey: `Summon` works from anywhere; `Settings` only while the
/// launcher is shown.
#[derive(Debug, Clone, Copy, PartialEq, Eq, Structural)]
pub enum HotkeyField {
    /// Summons the launcher.
    Summon,
    /// Opens the settings.
    Settings,
}

/// Names the hotkey that a text writes down: control, alt, shift, the Windows
/// key and the physical key.
pub uninterp spec fn hotkey_text(text: Seq<char>) -> Option<(bool, bool, bool, bool, Seq<char>)>;

/// Whether `s` holds an `o` and an `r` in a row, in either case. Only then can it
/// name the modifier that differs between platforms.
pub open spec fn mentions_or(s: Seq<char>) -> bool {
    exists|i: int|
        0 <= i < s.len() - 1 && (#[trigger] s[i] == 'o' || s[i] == 'O') && (s[i + 1] == 'r' || s[i
            + 1] == 'R')
}

/// The parts of a hotkey.
pub open spec fn hotkey_parts(o: Option<Hotkey>) -> Option<(bool, bool, bool, bool, Seq<char>)> {
    match o {
        Some(h) => Some((h.control, h.alt, h.shift, h.meta, h.code@)),
        None => None,
    }
}

/// The physical key of a key name: `KeyA` for `A`, `Digit1` for `1`, and the
/// name itself for any other.
pub open spec fn physical_key(token: Seq<char>) -> Seq<char> {
    if token.len() == 1 && 'A' <= token[0] && token[0] <= 'Z' {
        "Key"@ + token
    } else if token.len() == 1 && '0' <= token[0] && token[0] <= '9' {
        "Digit"@ + token
    } else {
        token
    }
}

/// Whether `token` is the key name of a key that can be bound.
pub open spec fn is_token(token: Seq<char>) -> bool {
    exists|key: Seq<char>| #[trigger] key_token(key) == Some(token)
}

/// Whether `code` is the physical key of a key that can be bound.
pub open spec fn is_bindable(code: Seq<char>) -> bool {
    exists|key: Seq<char>|
        #[trigger] key_token(key) matches Some(token) && physical_key(token) == code
}

/// `global_hotkey::hotkey::HotKey::from_str`: the hotkey depends on the text
/// alone, unless it names the modifier that is the command key on one platform
/// and control on the others. The names of modifiers and the key name of a key
/// that can be bound are read as the hotkey of these modifiers and the physical
/// key. The text under which a hotkey of such a key is stored is read as that
/// hotkey.
#[verifier::external_body]
fn parse_hotkey(text: &str) -> (r: Option<Hotkey>)
    ensures
        !mentions_or(text@) ==> hotkey_parts(r) == hotkey_text(text@),
        forall|h: HotkeyView, token: Seq<char>|
            is_token(token) && h.code == physical_key(token) && text@ == #[trigger] h.written(token)
                ==> opt_hotkey(r) == Some(h),
        forall|h: HotkeyView|
            is_bindable(h.code) && text@ == #[trigger] h.stored() ==> opt_hotkey(r) == Some(h),
{
    let hotkey = text.parse::<global_hotkey::hotkey::HotKey>().ok()?;
    Some(Hotkey {
        control: hotkey.mods.contains(global_hotkey::hotkey::Modifiers::CONTROL),
        alt: hotkey.mods.contains(global_hotkey::hotkey::Modifiers::ALT),
        shift: hotkey.mods.contains(global_hotkey::hotkey::Modifiers::SHIFT),
        meta: hotkey.mods.contains(global_hotkey::hotkey::Modifiers::META),
        code: hotkey.key.to_string(),
    })
}

/// The key names that differ from what the keys are called here.
pub open spec fn named_token(key: Seq<char>) -> Option<Seq<char>> {
    if key == "space"@ {
        Some("Space"@)
    } else if key == "enter"@ {
        Some("Enter"@)
    } else if key == "tab"@ {
        Some("Tab"@)
    } else if key == "backspace"@ {
        Some("Backspace"@)
    } else if key == "delete"@ {
        Some("Delete"@)
    } else if key == "home"@ {
        Some("Home"@)
    } else if key == "end"@ {
        Some("End"@)
    } else if key == "pageup"@ {
        Some("PageUp"@)
    } else if key == "pagedown"@ {
        Some("PageDown"@)
    } else if key == "insert"@ {
        Some("Insert"@)
    } else if key == "up"@ {
        Some("ArrowUp"@)
    } else if key == "down"@ {
        Some("ArrowDown"@)
    } else if key == "left"@ {
        Some("ArrowLeft"@)
    } else if key == "right"@ {
        Some("ArrowRight"@)
    } else if key == "capslock"@ {
        Some("CapsLock"@)
    } else if key == "numlock"@ {
        Some("NumLock"@)
    } else if key == "scrolllock"@ {
        Some("ScrollLock"@)
    } else if key == "printscreen"@ {
        Some("PrintScreen"@)
    } else if key == "pause"@ {
        Some("Pause"@)
    } else {
        None
    }
}

/// The key name of a key that types an ASCII character: a letter in upper case,
/// a digit as it is, a sign by its name.
pub open spec fn char_token(c: char) -> Option<Seq<char>> {
    if 'a' <= c && c <= 'z' {
        Some(seq![((c as u8) - 32) as u8 as char])
    } else if ('A' <= c && c <= 'Z') || ('0' <= c && c <= '9') {
        Some(seq![c])
    } else if c == '-' {
        Some("Minus"@)
    } else if c == '=' {
        Some("Equal"@)
    } else if c == '[' {
        Some("BracketLeft"@)
    } else if c == ']' {
        Some("BracketRight"@)
    } else if c == '\\' {
        Some("Backslash"@)
    } else if c == ';' {
        Some("Semicolon"@)
    } else if c == '\'' {
        Some("Quote"@)
    } else if c == ',' {
        Some("Comma"@)
    } else if c == '.' {
        Some("Period"@)
    } else if c == '/' {
        Some("Slash"@)
    } else if c == '`' {
        Some("Backquote"@)
    } else {
        None
    }
}

/// The number of a function key, from 1 to 24. A plus and zeros may stand
/// before it.
pub open spec fn function_number(key: Seq<char>) -> Option<int> {
    if key.len() < 2 || key[0] != 'f' {
        None
    } else {
        let d = if key[1] == '+' {
            key.skip(2)
        } else {
            key.skip(1)
        };
        if d.len() > 0 && all_digits(d) && 1 <= number(d) <= 24 {
            Some(number(d))
        } else {
            None
        }
    }
}

/// The key name of a key: `None` for modifiers and for keys that cannot be bound.
pub open spec fn key_token(key: Seq<char>) -> Option<Seq<char>> {
    match named_token(key) {
        Some(t) => Some(t),
        None => if key.len() == 1 {
            char_token(key[0])
        } else {
            match function_number(key) {
                Some(n) => Some(seq!['F'] + decimal(n as nat)),
                None => None,
            }
        },
    }
}

/// The key names that differ from what the keys are called here.
fn named(key: &str) -> (r: Option<String>)
    ensures
        opt_view(r) == named_token(key@),
{
    let name = if same(key, "space") {
        "Space"
    } else if same(key, "enter") {
        "Enter"
    } else if same(key, "tab") {
        "Tab"
    } else if same(key, "backspace") {
        "Backspace"
    } else if same(key, "delete") {
        "Delete"
    } else if same(key, "home") {
        "Home"
    } else if same(key, "end") {
        "End"
    } else if same(key, "pageup") {
        "PageUp"
    } else if same(key, "pagedown") {
        "PageDown"
    } else if same(key, "insert") {
        "Insert"
    } else if same(key, "up") {
        "ArrowUp"
    } else if same(key, "down") {
        "ArrowDown"
    } else if same(key, "left") {
        "ArrowLeft"
    } else if same(key, "right") {
        "ArrowRight"
    } else if same(key, "capslock") {
        "CapsLock"
    } else if same(key, "numlock") {
        "NumLock"
    } else if same(key, "scrolllock") {
        "ScrollLock"
    } else if same(key, "printscreen") {
        "PrintScreen"
    } else if same(key, "pause") {
        "Pause"
    } else {
        return None;
    };
    Some(name.to_owned())
}

/// The key name of a key that types an ASCII character.
fn char_name(c: char) -> (r: Option<String>)
    ensures
        opt_view(r) == char_token(c),
{
    if 'a' <= c && c <= 'z' {
        let mut s = String::new();
        s.push(((c as u8) - 32) as char);
        assert(s@ =~= seq![((c as u8) - 32) as u8 as char]);
        return Some(s);
    }
    if ('A' <= c && c <= 'Z') || ('0' <= c && c <= '9') {
        let mut s = String::new();
        s.push(c);
        assert(s@ =~= seq![c]);
        return Some(s);
    }
    let name = match c {
        '-' => "Minus",
        '=' => "Equal",
        '[' => "BracketLeft",
        ']' => "BracketRight",
        '\\' => "Backslash",
        ';' => "Semicolon",
        '\'' => "Quote",
        ',' => "Comma",
        '.' => "Period",
        '/' => "Slash",
        '`' => "Backquote",
        _ => {
            return None;
        },
    };
    Some(name.to_owned())
}

/// The number of a function key.
fn function_key(v: &Vec<char>) -> (r: Option<u64>)
    ensures
        match r {
            Some(n) => function_number(v@) == Some(n as int),
            None => function_number(v@) is None,
        },
{
    if v.len() < 2 || v[0] != 'f' {
        return None;
    }
    let start: usize = if v[1] == '+' {
        2
    } else {
        1
    };
    proof {
        assert(v@.skip(start as int) =~= v@.subrange(start as int, v.len() as int));
    }
    match parse_digits(v, start, v.len(), 24) {
        Some(n) => if n >= 1 {
            Some(n)
        } else {
            None
        },
        None => None,
    }
}

/// The key name of a key, such as `Space` for `space`, `A` for `a` and `F9` for
/// `f9`; `None` for modifiers and for keys that cannot be bound.
pub fn gpui_key_to_hotkey_token(key: &str) -> (r: Option<String>)
    ensures
        opt_view(r) == key_token(key@),
{
    if let Some(token) = named(key) {
        return Some(token);
    }
    let v = chars_of(key);
    if v.len() == 1 {
        return char_name(v[0]);
    }
    match function_key(&v) {
        Some(n) => {
            let mut s = String::new();
            s.push('F');
            push_decimal(&mut s, n);
            assert(s@ =~= seq!['F'] + decimal(n as nat));
            Some(s)
        },
        None => None,
    }
}

/// The hotkey of a key press: with at least one modifier, so that no plain key
/// is taken, and with a key that can be bound.
pub open spec fn pressed_hotkey(
    control: bool,
    alt: bool,
    shift: bool,
    meta: bool,
    key: Seq<char>,
) -> Option<HotkeyView> {
    if !control && !alt && !shift && !meta {
        None
    } else {
        match key_token(key) {
            Some(token) => Some(
                HotkeyView { control, alt, shift, meta, code: physical_key(token) },
            ),
            None => None,
        }
    }
}

/// The hotkey of a key press.
pub fn keystroke_to_hotkey(control: bool, alt: bool, shift: bool, meta: bool, key: &str) -> (r:
    Option<Hotkey>)
    ensures
        opt_hotkey(r) == pressed_hotkey(control, alt, shift, meta, key@),
        r matches Some(h) ==> is_bindable(h@.code),
{
    if !control && !alt && !shift && !meta {
        return None;
    }
    let token = match gpui_key_to_hotkey_token(key) {
        Some(token) => token,
        None => {
            return None;
        },
    };
    let mut text = String::new();
    push_if(&mut text, control, "ctrl+");
    push_if(&mut text, alt, "alt+");
    push_if(&mut text, shift, "shift+");
    push_if(&mut text, meta, "super+");
    text.append(token.as_str());
    proof {
        let h = HotkeyView { control, alt, shift, meta, code: physical_key(token@) };
        assert(text@ =~= h.written(token@));
        assert(is_token(token@));
    }
    parse_hotkey(text.as_str())
}

/// Whether two hotkeys are the same.
pub fn same_hotkey(a: &Hotkey, b: &Hotkey) -> (r: bool)
    ensures
        r == (a@ == b@),
{
    a.control == b.control && a.alt == b.alt && a.shift == b.shift && a.meta == b.meta && same(
        a.code.as_str(),
        b.code.as_str(),
    )
}

impl HotkeyView {
    /// The modifiers and a key name, as a key press is written down.
    pub open spec fn written(self, token: Seq<char>) -> Seq<char> {
        (if self.control {
            "ctrl+"@
        } else {
            Seq::empty()
        }) + (if self.alt {
            "alt+"@
        } else {
            Seq::empty()
        }) + (if self.shift {
            "shift+"@
        } else {
            Seq::empty()
        }) + (if self.meta {
            "super+"@
        } else {
            Seq::empty()
        }) + token
    }

    /// The text under which a hotkey is stored.
    pub open spec fn stored(self) -> Seq<char> {
        (if self.shift {
            "shift+"@
        } else {
            Seq::empty()
        }) + (if self.control {
            "control+"@
        } else {
            Seq::empty()
        }) + (if self.alt {
            "alt+"@
        } else {
            Seq::empty()
        }) + (if self.meta {
            "meta+"@
        } else {
            Seq::empty()
        }) + self.code
    }

    /// The text with which a hotkey is shown.
    pub open spec fn label(self) -> Seq<char> {
        (if self.meta {
            "Win + "@
        } else {
            Seq::empty()
        }) + (if self.control {
            "Ctrl + "@
        } else {
            Seq::empty()
        }) + (if self.alt {
            "Alt + "@
        } else {
            Seq::empty()
        }) + (if self.shift {
            "Shift + "@
        } else {
            Seq::empty()
        }) + short_code(self.code)
    }
}

/// The name of a physical key without `Key` or `Digit` before it.
pub open spec fn short_code(code: Seq<char>) -> Seq<char> {
    if has_prefix(code, "Key"@) {
        code.skip(3)
    } else if has_prefix(code, "Digit"@) {
        code.skip(5)
    } else {
        code
    }
}

/// The name of a physical key without `Key` or `Digit` before it.
pub fn code_label(code: &str) -> (r: String)
    ensures
        r@ == short_code(code@),
{
    let v = chars_of(code);
    proof {
        reveal_strlit("Key");
        reveal_strlit("Digit");
        assert("Key"@.len() == 3 && "Digit"@.len() == 5);
    }
    if starts_with(code, "Key") {
        let s = string_of(&v, 3, v.len());
        assert(s@ =~= code@.skip(3));
        s
    } else if starts_with(code, "Digit") {
        let s = string_of(&v, 5, v.len());
        assert(s@ =~= code@.skip(5));
        s
    } else {
        code.to_owned()
    }
}

/// Appends `text` where `on`.
fn push_if(s: &mut String, on: bool, text: &str)
    ensures
        final(s)@ == old(s)@ + if on {
            text@
        } else {
            Seq::empty()
        },
{
    if on {
        s.append(text);
    } else {
        assert(s@ + Seq::<char>::empty() =~= s@);
    }
}

impl Hotkey {
    /// The text under which the hotkey is stored, such as `control+alt+Space`.
    pub fn to_string(&self) -> (r: String)
        ensures
            r@ == self@.stored(),
    {
        let mut s = String::new();
        push_if(&mut s, self.shift, "shift+");
        push_if(&mut s, self.control, "control+");
        push_if(&mut s, self.alt, "alt+");
        push_if(&mut s, self.meta, "meta+");
        s.append(self.code.as_str());
        assert(s@ =~= self@.stored());
        s
    }
}

/// The text with which a hotkey is shown, such as `Ctrl + Alt + Space`.
pub fn format_hotkey(hotkey: &Hotkey) -> (r: String)
    ensures
        r@ == hotkey@.label(),
{
    let mut s = String::new();
    push_if(&mut s, hotkey.meta, "Win + ");
    push_if(&mut s, hotkey.control, "Ctrl + ");
    push_if(&mut s, hotkey.alt, "Alt + ");
    push_if(&mut s, hotkey.shift, "Shift + ");
    s.append(code_label(hotkey.code.as_str()).as_str());
    assert(s@ =~= hotkey@.label());
    s
}

impl HotkeyField {
    /// The binding when none is stored.
    pub open spec fn standard(self) -> HotkeyView {
        match self {
            HotkeyField::Summon => HotkeyView {
                control: true,
                alt: true,
                shift: false,
                meta: false,
                code: "Space"@,
            },
            HotkeyField::Settings => HotkeyView {
                control: true,
                alt: false,
                shift: false,
                meta: false,
                code: "Comma"@,
            },
        }
    }

    /// The binding when none is stored, or what is stored is no hotkey.
    pub fn default_hotkey(self) -> (r: Hotkey)
        ensures
            r@ == self.standard(),
    {
        match self {
            HotkeyField::Summon => Hotkey {
                control: true,
                alt: true,
                shift: false,
                meta: false,
                code: "Space".to_owned(),
            },
            HotkeyField::Settings => Hotkey {
                control: true,
                alt: false,
                shift: false,
                meta: false,
                code: "Comma".to_owned(),
            },
        }
    }

    /// The key under which the hotkey is stored.
    pub fn setting_key(self) -> (r: &'static str)
        ensures
            r@ == (match self {
                HotkeyField::Summon => "summon_hotkey"@,
                HotkeyField::Settings => "settings_hotkey"@,
            }),
    {
        match self {
            HotkeyField::Summon => "summon_hotkey",
            HotkeyField::Settings => "settings_hotkey",
        }
    }

    /// The hotkey that was read, or the default where there is none.
    pub fn or_default(self, read: Option<Hotkey>) -> (r: Hotkey)
        ensures
            r@ == (match read {
                Some(h) => h@,
                None => self.standard(),
            }),
    {
        match read {
            Some(h) => h,
            None => self.default_hotkey(),
        }
    }

    /// The hotkey of a stored value, or the default where nothing is stored or
    /// what is stored is no hotkey. A hotkey of a key that can be bound is read
    /// back as it was stored.
    pub fn read_hotkey(self, value: Option<&str>) -> (r: Hotkey)
        ensures
            value matches Some(text) ==> forall|h: HotkeyView|
                is_bindable(h.code) && text@ == #[trigger] h.stored() ==> r@ == h,
            match value {
                Some(text) => !mentions_or(text@) ==> r@ == (match hotkey_text(text@) {
                    Some((control, alt, shift, meta, code)) => HotkeyView {
                        control,
                        alt,
                        shift,
                        meta,
                        code,
                    },
                    None => self.standard(),
                }),
                None => r@ == self.standard(),
            },
    {
        match value {
            Some(text) => self.or_default(parse_hotkey(text)),
            None => self.default_hotkey(),
        }
    }
}

/// The default hotkeys are of keys that can be bound, so that they are read back
/// as they were stored.
pub proof fn default_hotkeys_are_bindable(field: HotkeyField)
    ensures
        is_bindable(field.standard().code),
{
    reveal_strlit("space");
    reveal_strlit("enter");
    reveal_strlit("tab");
    reveal_strlit("backspace");
    reveal_strlit("delete");
    reveal_strlit("home");
    reveal_strlit("end");
    reveal_strlit("pageup");
    reveal_strlit("pagedown");
    reveal_strlit("insert");
    reveal_strlit("up");
    reveal_strlit("down");
    reveal_strlit("left");
    reveal_strlit("right");
    reveal_strlit("capslock");
    reveal_strlit("numlock");
    reveal_strlit("scrolllock");
    reveal_strlit("printscreen");
    reveal_strlit("pause");
    reveal_strlit("Space");
    reveal_strlit("Comma");
    assert(key_token("space"@) == Some("Space"@));
    assert(physical_key("Space"@) == "Space"@);
    assert(key_token(seq![',']) == Some("Comma"@));
    assert(physical_key("Comma"@) == "Comma"@);
}

/// The hotkeys in use.
pub struct Hotkeys {
    summon: Option<Hotkey>,
    settings: Option<Hotkey>,
}

/// What [`Hotkeys`] are.
pub struct HotkeysView {
    pub summon: Option<HotkeyView>,
    pub settings: Option<HotkeyView>,
}

impl View for Hotkeys {
    type V = HotkeysView;

    closed spec fn view(&self) -> HotkeysView {
        HotkeysView { summon: opt_hotkey(self.summon), settings: opt_hotkey(self.settings) }
    }
}

/// What is left to do to change a hotkey.
#[derive(Debug)]
pub enum HotkeyChange {
    /// Nothing: it is that hotkey already.
    Unchanged,
    /// Store it under its key.
    Store { key: String, value: String },
    /// It cannot be changed.
    Refused,
    /// Let go of the one in use, try to register the new one with the system,
    /// and report ([`Hotkeys::summon_registered`]).
    Register { release: Option<Hotkey> },
}

/// What is left to do after the system took a hotkey, or did not.
#[derive(Debug)]
pub enum HotkeyOutcome {
    /// The new one is in use: store it under its key.
    Store { key: String, value: String },
    /// The new one is taken: register the one that was in use again.
    Restore { hotkey: Option<Hotkey> },
}

impl Hotkeys {
    /// The hotkeys in use.
    pub fn new(summon: Option<Hotkey>, settings: Option<Hotkey>) -> (r: Self)
        ensures
            r@ == (HotkeysView { summon: opt_hotkey(summon), settings: opt_hotkey(settings) }),
    {
        Hotkeys { summon, settings }
    }

    /// The hotkey in use for a field.
    pub fn active_hotkey(&self, field: HotkeyField) -> (r: Option<Hotkey>)
        ensures
            opt_hotkey(r) == (match field {
                HotkeyField::Summon => self@.summon,
                HotkeyField::Settings => self@.settings,
            }),
    {
        let active = match field {
            HotkeyField::Summon => &self.summon,
            HotkeyField::Settings => &self.settings,
        };
        match active {
            Some(h) => Some(h.clone()),
            None => None,
        }
    }

    /// Whether a hotkey is the one in use for a field.
    pub fn is_active(&self, field: HotkeyField, hotkey: &Hotkey) -> (r: bool)
        ensures
            r == ((match field {
                HotkeyField::Summon => self@.summon,
                HotkeyField::Settings => self@.settings,
            }) == Some(hotkey@)),
    {
        match self.active_hotkey(field) {
            Some(active) => same_hotkey(&active, hotkey),
            None => false,
        }
    }

    /// Changes a hotkey. The settings hotkey is in use at once; the summon
    /// hotkey goes through the system, which `manager` tells there is.
    pub fn apply_hotkey(&mut self, field: HotkeyField, hotkey: &Hotkey, manager: bool) -> (r:
        HotkeyChange)
        ensures
            ({
                let active = match field {
                    HotkeyField::Summon => old(self)@.summon,
                    HotkeyField::Settings => old(self)@.settings,
                };
                if active == Some(hotkey@) {
                    r is Unchanged && final(self)@ == old(self)@
                } else {
                    match field {
                        HotkeyField::Settings => final(self)@ == (HotkeysView {
                            settings: Some(hotkey@),
                            ..old(self)@
                        }) && match r {
                            HotkeyChange::Store { key, value } => key@ == "settings_hotkey"@
                                && value@ == hotkey@.stored(),
                            _ => false,
                        },
                        HotkeyField::Summon => final(self)@ == old(self)@ && match r {
                            HotkeyChange::Register { release } => manager && opt_hotkey(release)
                                == active,
                            HotkeyChange::Refused => !manager,
                            _ => false,
                        },
                    }
                }
            }),
    {
        if self.is_active(field, hotkey) {
            return HotkeyChange::Unchanged;
        }
        match field {
            HotkeyField::Settings => {
                self.settings = Some(hotkey.clone());
                HotkeyChange::Store {
                    key: field.setting_key().to_owned(),
                    value: hotkey.to_string(),
                }
            },
            HotkeyField::Summon => {
                if manager {
                    HotkeyChange::Register { release: self.active_hotkey(field) }
                } else {
                    HotkeyChange::Refused
                }
            },
        }
    }

    /// Takes note of whether the system took the new summon hotkey. If not, the
    /// one that was in use stays.
    pub fn summon_registered(&mut self, hotkey: &Hotkey, taken: bool) -> (r: HotkeyOutcome)
        ensures
            if taken {
                final(self)@ == (HotkeysView { summon: Some(hotkey@), ..old(self)@ }) && match r {
                    HotkeyOutcome::Store { key, value } => key@ == "summon_hotkey"@ && value@
                        == hotkey@.stored(),
                    _ => false,
                }
            } else {
                final(self)@ == old(self)@ && match r {
                    HotkeyOutcome::Restore { hotkey } => opt_hotkey(hotkey) == old(self)@.summon,
                    _ => false,
                }
            },
    {
        if taken {
            self.summon = Some(hotkey.clone());
            HotkeyOutcome::Store {
                key: HotkeyField::Summon.setting_key().to_owned(),
                value: hotkey.to_string(),
            }
        } else {
            HotkeyOutcome::Restore { hotkey: self.active_hotkey(HotkeyField::Summon) }
        }
    }
}

} // verus!
