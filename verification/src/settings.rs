//! The settings: language, theme color, and the recording of hotkeys.

use vstd::prelude::*;

use crate::hotkeys::{keystroke_to_hotkey, pressed_hotkey, Hotkey, HotkeyField};
use crate::text::{chars_of, same};

verus! {

/// The accent color when none is chosen.
pub const DEFAULT_ACCENT: u32 = 0x863bff;

/// The setting that holds the theme color.
pub const THEME_COLOR_SETTING: &'static str = "theme_color";

/// The setting that holds the language.
pub const LANGUAGE_SETTING: &'static str = "language";

/// Whether `c` is a hexadecimal digit.
pub open spec fn is_hex(c: char) -> bool {
    ('0' <= c && c <= '9') || ('a' <= c && c <= 'f') || ('A' <= c && c <= 'F')
}

/// The value of a hexadecimal digit.
pub open spec fn hex_value(c: char) -> int {
    if '0' <= c && c <= '9' {
        c as u32 - '0' as u32
    } else if 'a' <= c && c <= 'f' {
        c as u32 - 'a' as u32 + 10
    } else {
        c as u32 - 'A' as u32 + 10
    }
}

/// The number that hexadecimal digits write down.
pub open spec fn hex_number(s: Seq<char>) -> int
    decreases s.len(),
{
    if s.len() == 0 {
        0
    } else {
        hex_number(s.drop_last()) * 16 + hex_value(s.last())
    }
}

/// A color without the sign in front, which may be missing.
pub open spec fn without_sign(text: Seq<char>) -> Seq<char> {
    if text.len() > 0 && text[0] == '#' {
        text.skip(1)
    } else {
        text
    }
}

/// Whether all of the characters are hexadecimal digits.
pub open spec fn all_hex(s: Seq<char>) -> bool {
    forall|i: int| 0 <= i < s.len() ==> is_hex(#[trigger] s[i])
}

/// The color that `#rrggbb` writes down; the sign may be left out.
pub open spec fn hex_color(text: Seq<char>) -> Option<int> {
    let s = without_sign(text);
    if s.len() == 6 && all_hex(s) {
        Some(hex_number(s))
    } else {
        None
    }
}

/// The color that `#rrggbb` writes down.
pub fn parse_hex_color(text: &str) -> (r: Option<u32>)
    ensures
        match r {
            Some(color) => hex_color(text@) == Some(color as int) && color <= 0xffffff,
            None => hex_color(text@) is None,
        },
{
    let v = chars_of(text);
    let start: usize = if v.len() > 0 && v[0] == '#' {
        1
    } else {
        0
    };
    let ghost s = without_sign(text@);
    assert(s =~= text@.skip(start as int));
    if v.len() - start != 6 {
        return None;
    }
    let mut n: u32 = 0;
    let mut i: usize = 0;
    proof {
        assert(s.take(0) =~= Seq::<char>::empty());
    }
    while i < 6
        invariant
            i <= 6,
            start <= 1,
            v@ == text@,
            v.len() == start + 6,
            s == text@.skip(start as int),
            s == without_sign(text@),
            n == hex_number(s.take(i as int)),
            forall|j: int| 0 <= j < i ==> is_hex(#[trigger] s[j]),
            i == 0 ==> n == 0,
            i == 1 ==> n <= 0xf,
            i == 2 ==> n <= 0xff,
            i == 3 ==> n <= 0xfff,
            i == 4 ==> n <= 0xffff,
            i == 5 ==> n <= 0xfffff,
            i == 6 ==> n <= 0xffffff,
        decreases 6 - i,
    {
        let c = v[start + i];
        proof {
            assert(s[i as int] == c);
            assert(s.take(i + 1).drop_last() =~= s.take(i as int));
            assert(s.take(i + 1).last() == c);
        }
        let d: u32 = if '0' <= c && c <= '9' {
            c as u32 - '0' as u32
        } else if 'a' <= c && c <= 'f' {
            c as u32 - 'a' as u32 + 10
        } else if 'A' <= c && c <= 'F' {
            c as u32 - 'A' as u32 + 10
        } else {
            assert(!is_hex(s[i as int]) && !all_hex(s));
            return None;
        };
        n = n * 16 + d;
        i += 1;
    }
    assert(s.take(6) =~= s);
    Some(n)
}

/// The character of a hexadecimal digit, in lower case.
pub open spec fn hex_char(d: int) -> char {
    if d < 10 {
        crate::text::digit_char(d as nat)
    } else if d == 10 {
        'a'
    } else if d == 11 {
        'b'
    } else if d == 12 {
        'c'
    } else if d == 13 {
        'd'
    } else if d == 14 {
        'e'
    } else {
        'f'
    }
}

/// The six hexadecimal digits of a color, after a sign.
pub open spec fn color_text(color: int) -> Seq<char> {
    seq![
        '#',
        hex_char(color / 0x100000),
        hex_char(color / 0x10000 % 16),
        hex_char(color / 0x1000 % 16),
        hex_char(color / 0x100 % 16),
        hex_char(color / 0x10 % 16),
        hex_char(color % 16),
    ]
}

/// The character of a hexadecimal digit, in lower case.
fn hex_digit(d: u32) -> (c: char)
    requires
        d < 16,
    ensures
        c == hex_char(d as int),
{
    match d {
        10 => 'a',
        11 => 'b',
        12 => 'c',
        13 => 'd',
        14 => 'e',
        15 => 'f',
        _ => crate::text::digit(d as u64),
    }
}

/// A color as `#rrggbb`.
pub fn format_color(color: u32) -> (r: String)
    requires
        color <= 0xffffff,
    ensures
        r@ == color_text(color as int),
{
    let mut s = String::new();
    s.push('#');
    s.push(hex_digit(color / 0x100000));
    s.push(hex_digit(color / 0x10000 % 16));
    s.push(hex_digit(color / 0x1000 % 16));
    s.push(hex_digit(color / 0x100 % 16));
    s.push(hex_digit(color / 0x10 % 16));
    s.push(hex_digit(color % 16));
    assert(s@ =~= color_text(color as int));
    s
}

proof fn lemma_hex_char(d: int)
    requires
        0 <= d < 16,
    ensures
        is_hex(hex_char(d)),
        hex_value(hex_char(d)) == d,
{
}

/// A color that is written down is read back as it was.
pub proof fn color_is_read_back(color: int)
    requires
        0 <= color <= 0xffffff,
    ensures
        hex_color(color_text(color)) == Some(color),
{
    let t = color_text(color);
    let s = t.skip(1);
    let a = color / 0x100000;
    let b = color / 0x10000 % 16;
    let c = color / 0x1000 % 16;
    let d = color / 0x100 % 16;
    let e = color / 0x10 % 16;
    let f = color % 16;
    lemma_hex_char(a);
    lemma_hex_char(b);
    lemma_hex_char(c);
    lemma_hex_char(d);
    lemma_hex_char(e);
    lemma_hex_char(f);
    assert(s =~= seq![hex_char(a), hex_char(b), hex_char(c), hex_char(d), hex_char(e), hex_char(f)]);
    let s5 = s.drop_last();
    let s4 = s5.drop_last();
    let s3 = s4.drop_last();
    let s2 = s3.drop_last();
    let s1 = s2.drop_last();
    let s0 = s1.drop_last();
    assert(hex_number(s0) == 0);
    assert(hex_number(s1) == a);
    assert(hex_number(s2) == a * 16 + b);
    assert(hex_number(s3) == (a * 16 + b) * 16 + c);
    assert(hex_number(s4) == ((a * 16 + b) * 16 + c) * 16 + d);
    assert(hex_number(s5) == (((a * 16 + b) * 16 + c) * 16 + d) * 16 + e);
    assert(hex_number(s) == ((((a * 16 + b) * 16 + c) * 16 + d) * 16 + e) * 16 + f);
}

/// The message with the name of an accent color.
pub open spec fn accent_key(color: u32) -> Seq<char> {
    if color == 0x863bff {
        "settings-theme-violet"@
    } else if color == 0x94e2d5 {
        "settings-theme-jade"@
    } else if color == 0xf38ba8 {
        "settings-theme-rose"@
    } else if color == 0xf9e2af {
        "settings-theme-amber"@
    } else {
        "settings-theme-blue"@
    }
}

/// The message with the name of an accent color.
pub fn accent_label_key(color: u32) -> (r: &'static str)
    ensures
        r@ == accent_key(color),
{
    match color {
        0x863bff => "settings-theme-violet",
        0x94e2d5 => "settings-theme-jade",
        0xf38ba8 => "settings-theme-rose",
        0xf9e2af => "settings-theme-amber",
        _ => "settings-theme-blue",
    }
}

/// The accent colors that are offered, the default first.
pub fn accent_presets() -> (r: [u32; 5])
    ensures
        r@ == seq![0x863bffu32, 0x89b4fau32, 0x94e2d5u32, 0xf38ba8u32, 0xf9e2afu32],
{
    let r: [u32; 5] = [0x863bff, 0x89b4fa, 0x94e2d5, 0xf38ba8, 0xf9e2af];
    assert(r@ =~= seq![0x863bffu32, 0x89b4fau32, 0x94e2d5u32, 0xf38ba8u32, 0xf9e2afu32]);
    r
}

/// What an accent color is shown as.
#[derive(Debug, PartialEq, Eq)]
pub enum AccentLabel {
    /// The message with this key.
    Message(&'static str),
    /// This text.
    Text(String),
}

/// What an [`AccentLabel`] is.
pub enum AccentLabelView {
    Message(Seq<char>),
    Text(Seq<char>),
}

impl View for AccentLabel {
    type V = AccentLabelView;

    open spec fn view(&self) -> AccentLabelView {
        match self {
            AccentLabel::Message(key) => AccentLabelView::Message(key@),
            AccentLabel::Text(text) => AccentLabelView::Text(text@),
        }
    }
}

/// The accent colors that are offered.
pub open spec fn is_preset(color: u32) -> bool {
    color == 0x863bff || color == 0x89b4fa || color == 0x94e2d5 || color == 0xf38ba8 || color
        == 0xf9e2af
}

/// What the current accent color is shown as: its name where it is one of those
/// offered, else its digits.
pub fn current_accent_label(color: u32) -> (r: AccentLabel)
    requires
        color <= 0xffffff,
    ensures
        r@ == if is_preset(color) {
            AccentLabelView::Message(accent_key(color))
        } else {
            AccentLabelView::Text(color_text(color as int))
        },
{
    match color {
        0x863bff | 0x89b4fa | 0x94e2d5 | 0xf38ba8 | 0xf9e2af => AccentLabel::Message(
            accent_label_key(color),
        ),
        _ => AccentLabel::Text(format_color(color)),
    }
}

/// The languages that are offered, by code and name, in the order in which they
/// are listed.
pub open spec fn offered_languages() -> Seq<(Seq<char>, Seq<char>)> {
    seq![
        ("zh"@, "中文"@),
        ("en"@, "English"@),
        ("fr"@, "Français"@),
        ("de"@, "Deutsch"@),
        ("ru"@, "Русский"@),
        ("ja"@, "日本語"@),
        ("ko"@, "한국어"@),
    ]
}

/// The languages that are offered, by code and name.
pub fn supported_languages() -> (r: [(&'static str, &'static str); 7])
    ensures
        r@.map_values(|p: (&'static str, &'static str)| (p.0@, p.1@)) == offered_languages(),
{
    let r: [(&'static str, &'static str); 7] = [
        ("zh", "中文"),
        ("en", "English"),
        ("fr", "Français"),
        ("de", "Deutsch"),
        ("ru", "Русский"),
        ("ja", "日本語"),
        ("ko", "한국어"),
    ];
    assert(r@.map_values(|p: (&'static str, &'static str)| (p.0@, p.1@)) =~= offered_languages());
    r
}

/// The name of a language in that language; its code where it is not offered.
pub open spec fn language_name(code: Seq<char>) -> Seq<char> {
    if code == "zh"@ {
        "中文"@
    } else if code == "en"@ {
        "English"@
    } else if code == "fr"@ {
        "Français"@
    } else if code == "de"@ {
        "Deutsch"@
    } else if code == "ru"@ {
        "Русский"@
    } else if code == "ja"@ {
        "日本語"@
    } else if code == "ko"@ {
        "한국어"@
    } else {
        code
    }
}

/// The name of a language in that language.
pub fn language_label(code: &str) -> (r: String)
    ensures
        r@ == language_name(code@),
{
    if same(code, "zh") {
        "中文".to_owned()
    } else if same(code, "en") {
        "English".to_owned()
    } else if same(code, "fr") {
        "Français".to_owned()
    } else if same(code, "de") {
        "Deutsch".to_owned()
    } else if same(code, "ru") {
        "Русский".to_owned()
    } else if same(code, "ja") {
        "日本語".to_owned()
    } else if same(code, "ko") {
        "한국어".to_owned()
    } else {
        code.to_owned()
    }
}

/// A language that is offered is shown by its name, any other by its code.
pub proof fn languages_are_shown_by_name(code: Seq<char>)
    ensures
        forall|i: int|
            0 <= i < offered_languages().len() ==> language_name(
                (#[trigger] offered_languages()[i]).0,
            ) == offered_languages()[i].1,
        (forall|i: int|
            0 <= i < offered_languages().len() ==> (#[trigger] offered_languages()[i]).0 != code)
            ==> language_name(code) == code,
{
    reveal_strlit("zh");
    reveal_strlit("en");
    reveal_strlit("fr");
    reveal_strlit("de");
    reveal_strlit("ru");
    reveal_strlit("ja");
    reveal_strlit("ko");
    let offered = offered_languages();
    assert(offered[0].0 == "zh"@ && offered[1].0 == "en"@ && offered[2].0 == "fr"@);
    assert(offered[3].0 == "de"@ && offered[4].0 == "ru"@ && offered[5].0 == "ja"@);
    assert(offered[6].0 == "ko"@);
    assert("zh"@[0] == 'z' && "en"@[0] == 'e' && "fr"@[0] == 'f' && "de"@[0] == 'd');
    assert("ru"@[0] == 'r' && "ja"@[0] == 'j' && "ko"@[0] == 'k');
}

/// The locale of the widgets for a language: they know English and Chinese.
pub fn gpui_component_locale(code: &str) -> (r: &'static str)
    ensures
        r@ == (if code@ == "zh"@ {
            "zh-CN"@
        } else {
            "en"@
        }),
{
    if same(code, "zh") {
        "zh-CN"
    } else {
        "en"
    }
}

/// What a key does while a hotkey is recorded.
#[derive(Debug)]
pub enum RecordingStep {
    /// The key is not for the recording.
    Ignored,
    /// The recording ends without a hotkey.
    Cancelled,
    /// The recording ends, and the hotkey is to be changed.
    Recorded { field: HotkeyField, hotkey: Hotkey },
}

/// The recording of hotkeys in the settings window.
#[derive(Debug, Clone, Copy, PartialEq, Eq, Structural)]
pub struct HotkeyRecorder {
    /// The hotkey that is being recorded.
    pub recording: Option<HotkeyField>,
}

impl HotkeyRecorder {
    /// Nothing is being recorded.
    pub fn new() -> (r: Self)
        ensures
            r.recording is None,
    {
        HotkeyRecorder { recording: None }
    }

    /// Starts to record a hotkey, or stops where it is being recorded.
    pub fn toggle(&mut self, field: HotkeyField)
        ensures
            final(self).recording == (if old(self).recording == Some(field) {
                None
            } else {
                Some(field)
            }),
    {
        let on = match self.recording {
            Some(f) => f == field,
            None => false,
        };
        self.recording = if on {
            None
        } else {
            Some(field)
        };
    }

    /// Takes a key. Escape by itself ends the recording; a key that can be a
    /// hotkey is the hotkey; any other is let through.
    pub fn on_key(&mut self, control: bool, alt: bool, shift: bool, meta: bool, key: &str) -> (r:
        RecordingStep)
        ensures
            ({
                let bare_escape = key@ == "escape"@ && !control && !alt && !shift && !meta;
                let hotkey = pressed_hotkey(control, alt, shift, meta, key@);
                match old(self).recording {
                    None => r is Ignored && *final(self) == *old(self),
                    Some(recorded) => if bare_escape {
                        r is Cancelled && final(self).recording is None
                    } else {
                        match hotkey {
                            None => r is Ignored && *final(self) == *old(self),
                            Some(h) => final(self).recording is None && match r {
                                RecordingStep::Recorded { field, hotkey } => field == recorded
                                    && hotkey@ == h,
                                _ => false,
                            },
                        }
                    },
                }
            }),
    {
        let field = match self.recording {
            Some(field) => field,
            None => {
                return RecordingStep::Ignored;
            },
        };
        if same(key, "escape") && !control && !alt && !shift && !meta {
            self.recording = None;
            return RecordingStep::Cancelled;
        }
        match keystroke_to_hotkey(control, alt, shift, meta, key) {
            Some(hotkey) => {
                self.recording = None;
                RecordingStep::Recorded { field, hotkey }
            },
            None => RecordingStep::Ignored,
        }
    }
}

} // verus!
