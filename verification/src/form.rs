//! The three-field input form of the compose screen: title, duration
//! and description buffers, a focus index routing characters, and the
//! duration validation rule.

use vstd::prelude::*;

use crate::digits::{all_digits, dec_val, digit_of_char, is_digit, lemma_dec_val_snoc};

verus! {

/// The form's model: the three buffers, the focus, and whether the
/// duration buffer was flagged invalid at the last commit attempt.
#[verifier::ext_equal]
pub ghost struct FormView {
    pub title: Seq<char>,
    pub duration: Seq<char>,
    pub description: Seq<char>,
    pub focus: int,
    pub duration_invalid: bool,
}

/// Three text buffers with a focus index. Focus 0 is the title, 1 the
/// duration, 2 the description.
#[derive(Debug)]
pub struct InputForm {
    pub title: Vec<char>,
    pub duration: Vec<char>,
    pub description: Vec<char>,
    pub focus: usize,
    pub duration_invalid: bool,
}

impl View for InputForm {
    type V = FormView;

    open spec fn view(&self) -> FormView {
        FormView {
            title: self.title@,
            duration: self.duration@,
            description: self.description@,
            focus: self.focus as int,
            duration_invalid: self.duration_invalid,
        }
    }
}

/// The focus index names one of the three buffers.
pub open spec fn form_wf(f: FormView) -> bool {
    0 <= f.focus < 3
}

/// A fresh form: empty buffers, focus on the title, nothing flagged.
pub open spec fn spec_empty_form() -> FormView {
    FormView {
        title: Seq::empty(),
        duration: Seq::empty(),
        description: Seq::empty(),
        focus: 0,
        duration_invalid: false,
    }
}

/// A character appended to the focused buffer. Any focus beyond the
/// last buffer routes to the description, as the editor does.
pub open spec fn spec_insert(f: FormView, c: char) -> FormView {
    if f.focus == 0 {
        FormView { title: f.title.push(c), ..f }
    } else if f.focus == 1 {
        FormView { duration: f.duration.push(c), ..f }
    } else {
        FormView { description: f.description.push(c), ..f }
    }
}

/// The last character removed from the focused buffer, if it has one.
pub open spec fn spec_backspace(f: FormView) -> FormView {
    if f.focus == 0 {
        if f.title.len() > 0 {
            FormView { title: f.title.drop_last(), ..f }
        } else {
            f
        }
    } else if f.focus == 1 {
        if f.duration.len() > 0 {
            FormView { duration: f.duration.drop_last(), ..f }
        } else {
            f
        }
    } else {
        if f.description.len() > 0 {
            FormView { description: f.description.drop_last(), ..f }
        } else {
            f
        }
    }
}

/// The focus moved to the next buffer, wrapping after the third: the
/// successor of the focus index, modulo three.
pub open spec fn spec_advance_focus(f: FormView) -> FormView {
    FormView { focus: if f.focus == 0 { 1 as int } else if f.focus == 1 { 2 } else { 0 }, ..f }
}

/// The duration rule: the buffer is valid exactly when it is a
/// nonempty string of decimal digits whose value, taken as hours and
/// widened to seconds, fits the machine word. The value is the hours.
pub open spec fn spec_parse_duration(s: Seq<char>) -> Option<u64> {
    if s.len() > 0 && all_digits(s) && dec_val(s) * 3600 <= u64::MAX {
        Some(dec_val(s) as u64)
    } else {
        None
    }
}

/// Reads the duration buffer as a number of hours, exactly when the
/// duration rule holds of it.
pub fn parse_duration(s: &Vec<char>) -> (r: Option<u64>)
    ensures
        r == spec_parse_duration(s@),
{
    if s.len() == 0 {
        return None;
    }
    let mut acc: u64 = 0;
    let mut overflow = false;
    let mut m: usize = 0;
    while m < s.len()
        invariant
            m <= s@.len(),
            forall|q: int| 0 <= q < m ==> crate::digits::is_digit_char(s@[q]),
            !overflow ==> acc as nat == dec_val(s@.subrange(0, m as int)),
            overflow ==> dec_val(s@.subrange(0, m as int)) > u64::MAX,
        decreases s@.len() - m,
    {
        let c = s[m];
        if !is_digit(c) {
            return None;
        }
        let d = digit_of_char(c);
        proof {
            assert(s@.subrange(0, m as int + 1) =~= s@.subrange(0, m as int).push(c));
            lemma_dec_val_snoc(s@.subrange(0, m as int), c);
        }
        if !overflow {
            match acc.checked_mul(10) {
                Some(a10) => match a10.checked_add(d) {
                    Some(v) => {
                        acc = v;
                    },
                    None => {
                        overflow = true;
                    },
                },
                None => {
                    overflow = true;
                },
            }
        }
        m = m + 1;
    }
    proof {
        assert(s@.subrange(0, s@.len() as int) =~= s@);
    }
    if overflow {
        proof {
            assert(dec_val(s@) * 3600 >= dec_val(s@)) by (nonlinear_arith);
        }
        return None;
    }
    match acc.checked_mul(3600) {
        Some(_) => Some(acc),
        None => None,
    }
}

impl InputForm {
    /// A fresh form.
    pub fn new() -> (r: Self)
        ensures
            r@ == spec_empty_form(),
    {
        let r = InputForm {
            title: Vec::new(),
            duration: Vec::new(),
            description: Vec::new(),
            focus: 0,
            duration_invalid: false,
        };
        proof {
            assert(r@ =~= spec_empty_form());
        }
        r
    }

    /// Appends a character to the focused buffer.
    pub fn insert_char(&mut self, c: char)
        ensures
            final(self)@ == spec_insert(old(self)@, c),
    {
        match self.focus {
            0 => self.title.push(c),
            1 => self.duration.push(c),
            _ => self.description.push(c),
        }
        proof {
            assert(self@ =~= spec_insert(old(self)@, c));
        }
    }

    /// Removes the last character of the focused buffer, if it has one.
    pub fn backspace(&mut self)
        ensures
            final(self)@ == spec_backspace(old(self)@),
    {
        match self.focus {
            0 => {
                let _ = self.title.pop();
            },
            1 => {
                let _ = self.duration.pop();
            },
            _ => {
                let _ = self.description.pop();
            },
        }
        proof {
            assert(self@ =~= spec_backspace(old(self)@));
        }
    }

    /// Moves the focus to the next buffer, wrapping after the third.
    pub fn advance_focus(&mut self)
        ensures
            final(self)@ == spec_advance_focus(old(self)@),
    {
        self.focus = if self.focus == 0 {
            1
        } else if self.focus == 1 {
            2
        } else {
            0
        };
        proof {
            assert(self@ =~= spec_advance_focus(old(self)@));
        }
    }
}

} // verus!
