//! The text of values.

use vstd::prelude::*;
use vstd::string::*;
use crate::callable::{Callable, NativeFunction};
use crate::machine::{Action, Focus, Frame, Pending, Request, holds, texts_of};
use crate::statements::{Class, Function};
use crate::token::{LiteralType, Value, lemma_array_view, values_of};
use super::Interpreter;

verus! {

/// The numbers of a value, in the order in which they occur in it.
pub open spec fn numbers_of(value: Value) -> Seq<u64>
    decreases value, 0nat,
{
    match value {
        Value::Number(bits) => seq![bits],
        Value::Array(items) => numbers_in(items, items.len() as int),
        _ => Seq::empty(),
    }
}

/// The numbers of the first `count` values of a sequence.
pub open spec fn numbers_in(items: Seq<Value>, count: int) -> Seq<u64>
    decreases items, count,
{
    if count <= 0 || count > items.len() {
        Seq::empty()
    } else {
        numbers_in(items, count - 1) + numbers_of(items[count - 1])
    }
}

/// The text that `{:?}` gives for a string: the string in double quotes, with the
/// characters that need it escaped.
pub uninterp spec fn quoted_text(text: Seq<char>) -> Seq<char>;

/// Formats a string as `{:?}` does, by `format!` from `alloc`: the result is the text that
/// the `Debug` implementation of `str` writes for the argument, which depends on the
/// argument alone.
#[verifier::external_body]
fn quote(text: &str) -> (quoted: String)
    ensures
        quoted@ == quoted_text(text@),
{
    format!("{:?}", text)
}

/// The text that stands for a user function whose name, quoted, is `name`.
pub open spec fn function_label_text(name: Seq<char>) -> Seq<char> {
    "<fn "@ + name + ">"@
}

/// The text that stands for a class whose name, quoted, is `name`.
pub open spec fn class_label_text(name: Seq<char>) -> Seq<char> {
    "<class "@ + name + ">"@
}

/// The text that stands for an instance of the class whose name, quoted, is `name`.
pub open spec fn instance_label_text(name: Seq<char>) -> Seq<char> {
    "<"@ + name + " instance>"@
}

/// The text that stands for a user function, from its quoted name.
pub fn function_label(name: &str) -> (label: String)
    ensures
        label@ == function_label_text(name@),
{
    String::from_str("<fn ").concat(name).concat(">")
}

/// The text that stands for a class, from its quoted name.
pub fn class_label(name: &str) -> (label: String)
    ensures
        label@ == class_label_text(name@),
{
    String::from_str("<class ").concat(name).concat(">")
}

/// The text that stands for an instance, from the quoted name of its class.
pub fn instance_label(name: &str) -> (label: String)
    ensures
        label@ == instance_label_text(name@),
{
    String::from_str("<").concat(name).concat(" instance>")
}

/// The numbers of more items are at least as many.
pub proof fn lemma_numbers_in_grow(items: Seq<Value>, fewer: int, more: int)
    requires
        0 <= fewer <= more <= items.len(),
    ensures
        numbers_in(items, fewer).len() <= numbers_in(items, more).len(),
    decreases more - fewer,
{
    if fewer < more {
        lemma_numbers_in_grow(items, fewer, more - 1);
    }
}

/// Appends the numbers of a value to a list, in the order in which they occur in it.
fn collect_numbers(value: &LiteralType, numbers: &mut Vec<u64>)
    ensures
        final(numbers)@ == old(numbers)@ + numbers_of(value@),
    decreases value,
{
    match value {
        LiteralType::Number(bits) => {
            numbers.push(*bits);
            assert(numbers@ =~= old(numbers)@ + seq![*bits]);
        },
        LiteralType::Array(items) => {
            proof {
                lemma_array_view(*items);
            }
            let ghost all = values_of(items@);
            let mut i: usize = 0;
            assert(numbers@ =~= old(numbers)@ + numbers_in(all, 0));
            while i < items.len()
                invariant
                    i <= items.len(),
                    all == values_of(items@),
                    decreases_to!(value => items),
                    numbers@ == old(numbers)@ + numbers_in(all, i as int),
                decreases items.len() - i,
            {
                let ghost before = numbers@;
                collect_numbers(&items[i], numbers);
                proof {
                    assert(all[i as int] == items[i as int]@);
                    assert(numbers@ =~= old(numbers)@ + numbers_in(all, i + 1));
                }
                i += 1;
            }
        },
        _ => {
            assert(numbers@ =~= old(numbers)@ + Seq::<u64>::empty());
        },
    }
}

/// The numbers of a value, in the order in which they occur in it.
pub fn numbers(value: &LiteralType) -> (found: Vec<u64>)
    ensures
        found@ == numbers_of(value@),
{
    let mut found: Vec<u64> = Vec::new();
    collect_numbers(value, &mut found);
    assert(found@ =~= numbers_of(value@));
    found
}

impl<'a> Interpreter<'a> {
    /// The text that stands for a callable: a host function, a user function by its name,
    /// a class by its name, an instance by the name of its class. The names are quoted as
    /// `{:?}` quotes a string.
    pub open spec fn label(&self, callable: Callable) -> Seq<char> {
        match callable {
            Callable::NativeFunction(_) => "<fn native>"@,
            Callable::Function(f) => if f < self.functions().len() {
                function_label_text(
                    quoted_text(self.functions()[f as int].declaration.name.lexeme@),
                )
            } else {
                "<unknown>"@
            },
            Callable::Class(c) => if c < self.classes().len() {
                class_label_text(quoted_text(self.classes()[c as int].name@))
            } else {
                "<unknown>"@
            },
            Callable::Instance(i) => if i < self.instances().len() && self.instances().class_of(
                i as int,
            ) < self.classes().len() {
                instance_label_text(
                    quoted_text(self.classes()[self.instances().class_of(i as int) as int].name@),
                )
            } else {
                "<unknown>"@
            },
        }
    }

    /// The text of a value. The texts of its numbers come from the host: `texts` holds
    /// them in the order in which the numbers occur, the first number of this value at
    /// `start`.
    pub open spec fn rendered(&self, value: Value, texts: Seq<Seq<char>>, start: int) -> Seq<char>
        decreases value, 0nat,
    {
        match value {
            Value::String(text) => text,
            Value::Number(_) => if 0 <= start < texts.len() {
                texts[start]
            } else {
                Seq::empty()
            },
            Value::Bool(b) => if b {
                "yeah"@
            } else {
                "nah"@
            },
            Value::Array(items) => "["@ + self.rendered_items(
                items,
                items.len() as int,
                texts,
                start,
            ) + "]"@,
            Value::Callable(callable) => self.label(callable),
            Value::Null => "null"@,
        }
    }

    /// The texts of the first `count` values of a sequence, separated by a comma and a
    /// space.
    pub open spec fn rendered_items(
        &self,
        items: Seq<Value>,
        count: int,
        texts: Seq<Seq<char>>,
        start: int,
    ) -> Seq<char>
        decreases items, count,
    {
        if count <= 0 || count > items.len() {
            Seq::empty()
        } else {
            self.rendered_items(items, count - 1, texts, start) + (if count > 1 {
                ", "@
            } else {
                Seq::empty()
            }) + self.rendered(
                items[count - 1],
                texts,
                start + numbers_in(items, count - 1).len(),
            )
        }
    }

    /// The text that stands for a callable; see [`Interpreter::label`].
    pub fn label_of(&self, callable: &Callable) -> (text: String)
        requires
            self.wf(),
        ensures
            text@ == self.label(*callable),
    {
        match callable {
            Callable::NativeFunction(_) => String::from_str("<fn native>"),
            Callable::Function(f) => {
                if *f < self.functions.len() {
                    let name = quote(self.functions[*f].declaration.name.lexeme.as_str());
                    function_label(name.as_str())
                } else {
                    String::from_str("<unknown>")
                }
            },
            Callable::Class(c) => {
                if *c < self.classes.len() {
                    let name = quote(self.classes[*c].name.as_str());
                    class_label(name.as_str())
                } else {
                    String::from_str("<unknown>")
                }
            },
            Callable::Instance(i) => {
                if *i < self.instances.count() {
                    let class = self.instances.class(*i);
                    if class < self.classes.len() {
                        let name = quote(self.classes[class].name.as_str());
                        return instance_label(name.as_str());
                    }
                }
                String::from_str("<unknown>")
            },
        }
    }

    /// Appends the text of a value to `out`, and returns how many of the host's texts it
    /// used; see [`Interpreter::rendered`].
    pub(super) fn render_into(&self, value: &LiteralType, texts: &Vec<String>, start: usize, out: &mut String) -> (used:
        usize)
        requires
            self.wf(),
            start + numbers_of(value@).len() <= texts.len(),
        ensures
            used == numbers_of(value@).len(),
            final(out)@ == old(out)@ + self.rendered(value@, texts_of(texts@), start as int),
        decreases value,
    {
        match value {
            LiteralType::String(text) => {
                out.append(text.as_str());
                0
            },
            LiteralType::Number(_) => {
                out.append(texts[start].as_str());
                1
            },
            LiteralType::Bool(b) => {
                if *b {
                    out.append("yeah");
                } else {
                    out.append("nah");
                }
                0
            },
            LiteralType::Array(items) => {
                proof {
                    lemma_array_view(*items);
                }
                let ghost all = values_of(items@);
                let ghost given = texts_of(texts@);
                out.append("[");
                let mut used: usize = 0;
                let mut i: usize = 0;
                assert(out@ =~= old(out)@ + "["@ + self.rendered_items(all, 0, given, start as int));
                while i < items.len()
                    invariant
                        self.wf(),
                        i <= items.len(),
                        all == values_of(items@),
                        given == texts_of(texts@),
                        decreases_to!(value => items),
                        value@ == Value::Array(all),
                        used == numbers_in(all, i as int).len(),
                        start + numbers_in(all, all.len() as int).len() <= texts.len(),
                        out@ == old(out)@ + "["@ + self.rendered_items(
                            all,
                            i as int,
                            given,
                            start as int,
                        ),
                    decreases items.len() - i,
                {
                    let ghost before = out@;
                    if i > 0 {
                        out.append(", ");
                    }
                    let ghost separated = out@;
                    proof {
                        assert(all[i as int] == items[i as int]@);
                        lemma_numbers_in_grow(all, i + 1, all.len() as int);
                    }
                    let more = self.render_into(&items[i], texts, start + used, out);
                    proof {
                        let separator = if i > 0 {
                            ", "@
                        } else {
                            Seq::<char>::empty()
                        };
                        assert(separated =~= before + separator);
                        assert(out@ =~= old(out)@ + "["@ + self.rendered_items(
                            all,
                            i + 1,
                            given,
                            start as int,
                        ));
                    }
                    used = used + more;
                    i += 1;
                }
                out.append("]");
                proof {
                    assert(out@ =~= old(out)@ + self.rendered(value@, given, start as int));
                }
                used
            },
            LiteralType::Callable(callable) => {
                let label = self.label_of(callable);
                out.append(label.as_str());
                0
            },
            LiteralType::Null => {
                out.append("null");
                0
            },
        }
    }

    /// The text of a value, given the texts of its numbers; see [`Interpreter::rendered`].
    pub fn render(&self, value: &LiteralType, texts: &Vec<String>) -> (text: String)
        requires
            self.wf(),
            numbers_of(value@).len() <= texts.len(),
        ensures
            text@ == self.rendered(value@, texts_of(texts@), 0),
    {
        let mut text = String::new();
        let _ = self.render_into(value, texts, 0, &mut text);
        assert(text@ =~= self.rendered(value@, texts_of(texts@), 0));
        text
    }

    /// What one move does to the machine `before` when it is about to turn `value` into
    /// text: a value without numbers becomes text at once; for any other, the host is
    /// asked to format the numbers.
    pub open spec fn rendering(&self, before: Self, value: Value, action: Action) -> bool {
        &&& self.same_stores(before)
        &&& self.frames() == before.frames()
        &&& self.environment() == before.environment()
        &&& if numbers_of(value).len() == 0 {
            (self.focus() matches Focus::Rendered(text) && text@ == before.rendered(
                value,
                Seq::empty(),
                0,
            )) && action is Continue
        } else {
            (self.focus() matches Focus::Awaiting(Request::Format { value: kept, numbers })
                && kept@ == value && numbers@ == numbers_of(value)) && (
            action matches Action::Format(asked) && asked@ == numbers_of(value))
        }
    }

    /// One move of a machine that is about to turn `value` into text; see
    /// [`Interpreter::rendering`].
    pub(super) fn begin_render(&mut self, value: LiteralType) -> (action: Action)
        requires
            old(self).wf(),
            !(old(self).focus() is Awaiting),
        ensures
            final(self).wf(),
            final(self).rendering(*old(self), value@, action),
            (old(self).tables_resolved() && old(self).frames_resolved()) ==> final(self).resolved(),
    {
        let found = numbers(&value);
        if found.len() == 0 {
            let texts: Vec<String> = Vec::new();
            assert(texts_of(texts@) =~= Seq::<Seq<char>>::empty());
            let text = self.render(&value, &texts);
            self.focus = Focus::Rendered(text);
            Action::Continue
        } else {
            let request = Request::Format { value, numbers: found };
            let action = Self::issue(&request);
            self.focus = Focus::Awaiting(request);
            action
        }
    }

    /// What one move does to the machine `before` when it hands `text` to the pending
    /// work on top: a `print` hands the text to the host as a line of output; a
    /// concatenation joins it with the string it holds.
    pub open spec fn texted(&self, before: Self, text: Seq<char>, action: Action) -> bool {
        &&& self.same_stores(before)
        &&& if before.frames().len() == 0 {
            self.frames() == before.frames() && self.focus() is Idle && action is Continue
        } else {
            let frame = before.frames().last();
            let base = before.frames().drop_last();
            match frame.pending {
                Pending::Emit => self.frames() == base && self.focus() is Completed && (
                action matches Action::Print(line) && line@ == text),
                Pending::Concatenate { text_first } => self.frames() == base
                    && action is Continue && match values_of(frame.held@)[0] {
                    Value::String(held) => self.produces(
                        Value::String(
                            if text_first {
                                held + text
                            } else {
                                text + held
                            },
                        ),
                    ),
                    _ => self.produces(Value::String(text)),
                },
                _ => self.frames() == before.frames() && self.produces(Value::String(text))
                    && action is Continue,
            }
        }
    }

    /// One move of a machine that hands `text` to the pending work on top; see
    /// [`Interpreter::texted`].
    pub(super) fn deliver_text(&mut self, text: String) -> (action: Action)
        requires
            old(self).wf(),
            !(old(self).focus() is Awaiting),
        ensures
            final(self).wf(),
            final(self).texted(*old(self), text@, action),
            (old(self).tables_resolved() && old(self).frames_resolved()) ==> final(self).resolved(),
    {
        let count = self.frames.len();
        if count == 0 {
            self.focus = Focus::Idle;
            return Action::Continue;
        }
        let takes = match &self.frames[count - 1].pending {
            Pending::Emit => true,
            Pending::Concatenate { text_first } => true,
            _ => false,
        };
        if !takes {
            self.focus = Focus::Produced(LiteralType::String(text));
            return Action::Continue;
        }
        match self.pop() {
            None => Action::Continue,
            Some(frame) => {
                let Frame { pending, environment, mut held } = frame;
                match pending {
                    Pending::Emit => {
                        self.focus = Focus::Completed;
                        Action::Print(text)
                    },
                    Pending::Concatenate { text_first } => {
                        let ghost first = held@[0];
                        assert(values_of(held@)[0] == first@);
                        match held.pop() {
                            Some(LiteralType::String(kept)) => {
                                let joined = if text_first {
                                    kept.concat(text.as_str())
                                } else {
                                    text.concat(kept.as_str())
                                };
                                self.focus = Focus::Produced(LiteralType::String(joined));
                            },
                            _ => {
                                self.focus = Focus::Produced(LiteralType::String(text));
                            },
                        }
                        Action::Continue
                    },
                    _ => Action::Continue,
                }
            },
        }
    }

    /// The text of a value depends on the functions, classes and instances of the
    /// machine, and on nothing else of it.
    pub proof fn lemma_rendered_alike(
        first: Self,
        second: Self,
        value: Value,
        texts: Seq<Seq<char>>,
        start: int,
    )
        requires
            first.functions() == second.functions(),
            first.classes() == second.classes(),
            first.instances() == second.instances(),
        ensures
            first.rendered(value, texts, start) == second.rendered(value, texts, start),
        decreases value, 0nat,
    {
        match value {
            Value::Array(items) => {
                Self::lemma_rendered_items_alike(
                    first,
                    second,
                    items,
                    items.len() as int,
                    texts,
                    start,
                );
            },
            _ => {},
        }
    }

    /// The texts of the items of an array depend on the functions, classes and instances
    /// of the machine, and on nothing else of it.
    pub proof fn lemma_rendered_items_alike(
        first: Self,
        second: Self,
        items: Seq<Value>,
        count: int,
        texts: Seq<Seq<char>>,
        start: int,
    )
        requires
            first.functions() == second.functions(),
            first.classes() == second.classes(),
            first.instances() == second.instances(),
        ensures
            first.rendered_items(items, count, texts, start) == second.rendered_items(
                items,
                count,
                texts,
                start,
            ),
        decreases items, count,
    {
        if 0 < count <= items.len() {
            Self::lemma_rendered_items_alike(first, second, items, count - 1, texts, start);
            Self::lemma_rendered_alike(
                first,
                second,
                items[count - 1],
                texts,
                start + numbers_in(items, count - 1).len(),
            );
        }
    }

}

} // verus!
