//! The text field of a search view.

use vstd::prelude::*;

use crate::launcher::is_control;
use crate::text::{chars_of, same, string_of};

verus! {

/// What is left to do after a key in the field.
#[derive(Debug, Clone, Copy, PartialEq, Eq, Structural)]
pub enum BarEffect {
    Nothing,
    /// The text changed.
    Input,
    /// The text is submitted.
    Submit,
}

/// The text field.
pub struct SearchBar {
    value: String,
    placeholder: String,
}

/// What a [`SearchBar`] is.
pub struct BarView {
    /// The text.
    pub value: Seq<char>,
    /// What is shown while there is no text.
    pub placeholder: Seq<char>,
}

impl View for SearchBar {
    type V = BarView;

    closed spec fn view(&self) -> BarView {
        BarView { value: self.value@, placeholder: self.placeholder@ }
    }
}

/// The text after a key, and what is left to do. With control or the Windows key
/// held a key is not for the field. A key named by a single character types it,
/// unless that is a control character; other keys type nothing.
pub open spec fn bar_key(value: Seq<char>, key: Seq<char>, shortcut: bool) -> (Seq<char>, BarEffect) {
    if key.len() == 0 || shortcut {
        (value, BarEffect::Nothing)
    } else if key == "enter"@ {
        (value, BarEffect::Submit)
    } else if key == "backspace"@ {
        (
            if value.len() > 0 {
                value.drop_last()
            } else {
                value
            },
            BarEffect::Input,
        )
    } else if key == "escape"@ {
        (value, BarEffect::Nothing)
    } else if key.len() > 1 || is_control(key[0]) {
        (value, BarEffect::Nothing)
    } else {
        (value.push(key[0]), BarEffect::Input)
    }
}

impl SearchBar {
    /// An empty field with the given placeholder.
    pub fn new(placeholder: &str) -> (r: Self)
        ensures
            r@ == (BarView { value: Seq::empty(), placeholder: placeholder@ }),
    {
        let r = SearchBar { value: String::new(), placeholder: placeholder.to_owned() };
        assert(r@.value =~= Seq::<char>::empty());
        r
    }

    /// The text.
    pub fn value(&self) -> (r: &String)
        ensures
            r@ == self@.value,
    {
        &self.value
    }

    /// What the field shows: its text, or the placeholder where there is none.
    pub fn shown(&self) -> (r: &String)
        ensures
            r@ == (if self@.value.len() > 0 {
                self@.value
            } else {
                self@.placeholder
            }),
    {
        if self.value.as_str().unicode_len() > 0 {
            &self.value
        } else {
            &self.placeholder
        }
    }

    /// Replaces the text.
    pub fn set_value(&mut self, value: &str)
        ensures
            final(self)@ == (BarView { value: value@, ..old(self)@ }),
    {
        self.value = value.to_owned();
    }

    /// Takes a key.
    pub fn handle_key(&mut self, key: &str, control: bool, platform: bool) -> (r: BarEffect)
        ensures
            (final(self)@.value, r) == bar_key(old(self)@.value, key@, control || platform),
            final(self)@.placeholder == old(self)@.placeholder,
    {
        if key.is_empty() || control || platform {
            return BarEffect::Nothing;
        }
        if same(key, "enter") {
            return BarEffect::Submit;
        }
        if same(key, "backspace") {
            let v = chars_of(self.value.as_str());
            if v.len() > 0 {
                let rest = string_of(&v, 0, v.len() - 1);
                assert(rest@ =~= old(self)@.value.drop_last());
                self.value = rest;
            }
            return BarEffect::Input;
        }
        if same(key, "escape") {
            return BarEffect::Nothing;
        }
        if key.unicode_len() > 1 {
            return BarEffect::Nothing;
        }
        let c = key.get_char(0);
        if c as u32 <= 0x1F || (0x7F <= c as u32 && c as u32 <= 0x9F) {
            return BarEffect::Nothing;
        }
        self.value.push(c);
        BarEffect::Input
    }
}

} // verus!
