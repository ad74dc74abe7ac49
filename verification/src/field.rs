//! Leaf state: the [`Field`] holds the text the user sees for one scalar
//! value, an optional initial snapshot for dirty-comparison, a validation
//! message, a parse error, and the generation stamp of its last mutation.

use vstd::prelude::*;
use vstd::string::StringExecFns;
use crate::text::str_eq;

verus! {

/// Things that can report whether they differ from their initial snapshot.
pub trait Dirty {
    /// What "dirty" means for this type, at the specification level.
    spec fn dirty_spec(&self) -> bool;

    /// Returns whether the value differs from its recorded initial state.
    fn dirty(&self) -> (r: bool)
        ensures
            r == self.dirty_spec(),
    ;
}

/// The mathematical content of a [`Field`].
pub ghost struct FieldView {
    pub initial: Option<Seq<char>>,
    pub value: Seq<char>,
    pub message: Option<Seq<char>>,
    pub error: Option<Seq<char>>,
    pub generation: u64,
}

/// The view of an optional owned string.
pub open spec fn opt_text_view(o: Option<String>) -> Option<Seq<char>> {
    match o {
        Option::Some(s) => Option::Some(s@),
        Option::None => Option::None,
    }
}

/// The state of one scalar leaf of the tree.
#[derive(Debug)]
pub struct Field {
    initial: Option<String>,
    value: String,
    message: Option<String>,
    error: Option<String>,
    generation: u64,
}

impl View for Field {
    type V = FieldView;

    closed spec fn view(&self) -> FieldView {
        FieldView {
            initial: opt_text_view(self.initial),
            value: self.value@,
            message: opt_text_view(self.message),
            error: opt_text_view(self.error),
            generation: self.generation,
        }
    }
}

/// A field is dirty when its value differs from its snapshot, or, without a
/// snapshot, when its value is non-empty.
pub open spec fn field_dirty(f: FieldView) -> bool {
    match f.initial {
        Option::Some(initial) => initial != f.value,
        Option::None => f.value.len() != 0,
    }
}

/// The field made for a leaf whose text form is `text`: the snapshot is taken
/// exactly when `with_initial` holds, and the stamp is the current counter.
pub open spec fn spec_field_create(text: Seq<char>, with_initial: bool, g: u64) -> FieldView {
    FieldView {
        initial: if with_initial {
            Option::Some(text)
        } else {
            Option::None
        },
        value: text,
        message: Option::None,
        error: Option::None,
        generation: g,
    }
}

/// The next value of the generation counter: one more, saturating at the
/// top of the counter's range.
pub open spec fn bump(c: u64) -> u64 {
    if c < u64::MAX {
        (c + 1) as u64
    } else {
        c
    }
}

/// What `set_value` does: a no-op on equal text; otherwise the new text is
/// stored (clearing the message when the text returns to the snapshot) and
/// the leaf is stamped with the increased counter.
pub open spec fn spec_field_set_value(f: FieldView, text: Seq<char>, c: u64) -> (FieldView, u64) {
    if text == f.value {
        (f, c)
    } else {
        let c2 = bump(c);
        if f.initial == Option::Some(text) {
            (
                FieldView {
                    value: text,
                    message: Option::None,
                    generation: c2,
                    ..f
                },
                c2,
            )
        } else {
            (FieldView { value: text, generation: c2, ..f }, c2)
        }
    }
}

/// What `set_message` does: a no-op on an equal message, else store and stamp.
pub open spec fn spec_field_set_message(
    f: FieldView,
    message: Option<Seq<char>>,
    c: u64,
) -> (FieldView, u64) {
    if message == f.message {
        (f, c)
    } else {
        let c2 = bump(c);
        (FieldView { message: message, generation: c2, ..f }, c2)
    }
}

/// What `set_error` does: a no-op on an equal error, else store and stamp.
pub open spec fn spec_field_set_error(
    f: FieldView,
    error: Option<Seq<char>>,
    c: u64,
) -> (FieldView, u64) {
    if error == f.error {
        (f, c)
    } else {
        let c2 = bump(c);
        (FieldView { error: error, generation: c2, ..f }, c2)
    }
}

/// Compares an optional owned string against an optional borrowed one.
fn opt_str_eq(a: &Option<String>, b: &Option<String>) -> (r: bool)
    ensures
        r == (opt_text_view(*a) == opt_text_view(*b)),
{
    match (a, b) {
        (Option::Some(x), Option::Some(y)) => {
            let r = str_eq(x.as_str(), y.as_str());
            proof {
                if x@ == y@ {
                    assert(opt_text_view(*a) == opt_text_view(*b));
                }
            }
            r
        },
        (Option::None, Option::None) => true,
        _ => false,
    }
}

impl Field {
    /// Makes the state for a leaf whose text form is `text`; the snapshot is
    /// taken exactly when `with_initial` holds.
    pub fn create(text: String, with_initial: bool, generation: u64) -> (r: Field)
        ensures
            r@ == spec_field_create(text@, with_initial, generation),
    {
        let initial = if with_initial {
            Option::Some(String::from_str(text.as_str()))
        } else {
            Option::None
        };
        Field {
            initial,
            value: text,
            message: Option::None,
            error: Option::None,
            generation,
        }
    }

    /// Returns whether the field passed validation.
    pub fn valid(&self) -> (r: bool)
        ensures
            r == (self@.message is None),
    {
        self.message.is_none()
    }

    /// Returns the current text of the field.
    pub fn value(&self) -> (r: &String)
        ensures
            r@ == self@.value,
    {
        &self.value
    }

    /// Returns the validation message, if the field failed validation.
    pub fn message(&self) -> (r: Option<&String>)
        ensures
            r is Some <==> self@.message is Some,
            r is Some ==> r->0@ == self@.message->0,
    {
        self.message.as_ref()
    }

    /// Returns the parse error, if the last raw input could not be parsed.
    pub fn error(&self) -> (r: Option<&String>)
        ensures
            r is Some <==> self@.error is Some,
            r is Some ==> r->0@ == self@.error->0,
    {
        self.error.as_ref()
    }

    /// Returns the generation stamp of the last mutation of this leaf.
    pub fn generation(&self) -> (r: u64)
        ensures
            r == self@.generation,
    {
        self.generation
    }

    /// Stores a new text, per [`spec_field_set_value`].
    pub fn set_value(&mut self, text: String, counter: &mut u64)
        ensures
            (final(self)@, *final(counter)) == spec_field_set_value(
                old(self)@,
                text@,
                *old(counter),
            ),
    {
        if str_eq(text.as_str(), self.value.as_str()) {
            return;
        }
        let returns_to_initial = match &self.initial {
            Option::Some(initial) => str_eq(initial.as_str(), text.as_str()),
            Option::None => false,
        };
        self.value = text;
        if returns_to_initial {
            self.message = Option::None;
        }
        if *counter < u64::MAX {
            *counter = *counter + 1;
        }
        self.generation = *counter;
    }

    /// Stores a new validation message, per [`spec_field_set_message`].
    pub fn set_message(&mut self, message: Option<String>, counter: &mut u64)
        ensures
            (final(self)@, *final(counter)) == spec_field_set_message(
                old(self)@,
                opt_text_view(message),
                *old(counter),
            ),
    {
        if opt_str_eq(&message, &self.message) {
            return;
        }
        self.message = message;
        if *counter < u64::MAX {
            *counter = *counter + 1;
        }
        self.generation = *counter;
    }

    /// Stores a new parse error, per [`spec_field_set_error`].
    pub fn set_error(&mut self, error: Option<String>, counter: &mut u64)
        ensures
            (final(self)@, *final(counter)) == spec_field_set_error(
                old(self)@,
                opt_text_view(error),
                *old(counter),
            ),
    {
        if opt_str_eq(&error, &self.error) {
            return;
        }
        self.error = error;
        if *counter < u64::MAX {
            *counter = *counter + 1;
        }
        self.generation = *counter;
    }

    /// Replaces the initial snapshot; the stamp is untouched, since neither
    /// value, message nor error changes.
    pub fn set_initial(&mut self, initial: Option<String>)
        ensures
            final(self)@ == (FieldView { initial: opt_text_view(initial), ..old(self)@ }),
    {
        self.initial = initial;
    }
}

impl Dirty for Field {
    open spec fn dirty_spec(&self) -> bool {
        field_dirty(self@)
    }

    fn dirty(&self) -> (r: bool)
        ensures
            r == self.dirty_spec(),
    {
        match &self.initial {
            Option::Some(initial) => !str_eq(initial.as_str(), self.value.as_str()),
            Option::None => self.value.as_str().unicode_len() != 0,
        }
    }
}

/// For a field created with initial tracking, setting its value to any text
/// `x` and then back to the original text leaves the field clean and
/// message-free: a round trip to the snapshot is not a change.
pub proof fn lemma_field_round_trip(t: Seq<char>, g: u64, x: Seq<char>, c: u64)
    requires
        c < u64::MAX - 1,
    ensures
        ({
            let f = spec_field_create(t, true, g);
            let (f1, c1) = spec_field_set_value(f, x, c);
            let (f2, _c2) = spec_field_set_value(f1, t, c1);
            !field_dirty(f2) && f2.message is None
        }),
{
    let f = spec_field_create(t, true, g);
    let (f1, c1) = spec_field_set_value(f, x, c);
    let (f2, _c2) = spec_field_set_value(f1, t, c1);
    if x == t {
        assert(f2 == f);
    }
}

} // verus!
