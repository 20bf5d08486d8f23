//! What the machine asks of its host, and what it does with the answers.

use vstd::prelude::*;
use vstd::string::*;
use crate::interpreter::rendering::{numbers, numbers_of};
use crate::machine::{Action, Focus, Request, Response, asks, texts_of};
use crate::token::{LiteralType, Value, values_of};
use super::Interpreter;

verus! {

/// A copy of a list of numbers.
fn copy_numbers(numbers: &Vec<u64>) -> (copy: Vec<u64>)
    ensures
        copy@ == numbers@,
{
    let mut copy: Vec<u64> = Vec::new();
    let mut i: usize = 0;
    while i < numbers.len()
        invariant
            i <= numbers.len(),
            copy@ == numbers@.take(i as int),
        decreases numbers.len() - i,
    {
        copy.push(numbers[i]);
        assert(copy@ =~= numbers@.take(i + 1));
        i += 1;
    }
    assert(numbers@.take(numbers.len() as int) =~= numbers@);
    copy
}

/// A copy of a list of values.
fn copy_values(values: &Vec<LiteralType>) -> (copy: Vec<LiteralType>)
    ensures
        values_of(copy@) == values_of(values@),
{
    let mut copy: Vec<LiteralType> = Vec::new();
    let mut i: usize = 0;
    while i < values.len()
        invariant
            i <= values.len(),
            copy@.len() == i,
            forall|j: int| 0 <= j < i ==> copy@[j]@ == values@[j]@,
        decreases values.len() - i,
    {
        copy.push(values[i].duplicate());
        i += 1;
    }
    assert(values_of(copy@) =~= values_of(values@));
    copy
}

impl<'a> Interpreter<'a> {
    /// What the host is asked when the machine waits for the answer to `request`.
    pub(super) fn issue(request: &Request) -> (action: Action)
        ensures
            asks(action, *request),
    {
        match request {
            Request::Arithmetic { operator, left, right } => Action::Arithmetic {
                operator: *operator,
                left: *left,
                right: *right,
            },
            Request::Format { value, numbers } => Action::Format(copy_numbers(numbers)),
            Request::Native { function, arguments } => Action::Native {
                function: *function,
                arguments: copy_values(arguments),
            },
        }
    }

    /// What one move does to the machine `before` when it waits for the answer to
    /// `request` and the host answers `response`.
    ///
    /// A number answers arithmetic and is the result. As many texts as numbers were to be
    /// formatted answer a formatting, and the value becomes text. The result of a host
    /// function answers its call: a value is the result, an error fails the call. Any
    /// other answer changes nothing, and the host is asked again.
    pub open spec fn answered(&self, before: Self, request: Request, response: Response, action: Action) -> bool {
        &&& self.same_stores(before)
        &&& self.frames() == before.frames()
        &&& self.environment() == before.environment()
        &&& match (request, response) {
            (Request::Arithmetic { operator, left, right }, Response::Number(bits)) => self.produces(
                Value::Number(bits),
            ) && action is Continue,
            (Request::Format { value, numbers }, Response::Texts(texts)) => if texts@.len()
                == numbers@.len() {
                (self.focus() matches Focus::Rendered(text) && text@ == before.rendered(
                    value@,
                    texts_of(texts@),
                    0,
                )) && action is Continue
            } else {
                self.focus() == Focus::Awaiting(request) && asks(action, request)
            },
            (Request::Native { function, arguments }, Response::Native(Ok(value))) => self.produces(
                value@,
            ) && action is Continue,
            (Request::Native { function, arguments }, Response::Native(Err(error))) => self.focus()
                == Focus::Failing(error) && action is Continue,
            _ => self.focus() == Focus::Awaiting(request) && asks(action, request),
        }
    }

    /// One move of a machine that waits for the host; see [`Interpreter::answered`].
    pub(super) fn answer(&mut self, request: Request, response: Response) -> (action: Action)
        requires
            old(self).wf(),
            !(old(self).focus() is Awaiting),
            request matches Request::Format { value, numbers } ==> numbers@ == numbers_of(value@),
        ensures
            final(self).wf(),
            final(self).answered(*old(self), request, response, action),
            (old(self).tables_resolved() && old(self).frames_resolved()) ==> final(self).resolved(),
    {
        match (request, response) {
            (Request::Arithmetic { operator, left, right }, Response::Number(bits)) => {
                self.focus = Focus::Produced(LiteralType::Number(bits));
                Action::Continue
            },
            (Request::Format { value, numbers }, Response::Texts(texts)) => {
                if texts.len() == numbers.len() {
                    let text = self.render(&value, &texts);
                    self.focus = Focus::Rendered(text);
                    Action::Continue
                } else {
                    let request = Request::Format { value, numbers };
                    let action = Self::issue(&request);
                    self.focus = Focus::Awaiting(request);
                    action
                }
            },
            (Request::Native { function, arguments }, Response::Native(Ok(value))) => {
                self.focus = Focus::Produced(value);
                Action::Continue
            },
            (Request::Native { function, arguments }, Response::Native(Err(error))) => {
                self.focus = Focus::Failing(error);
                Action::Continue
            },
            (request, _) => {
                let action = Self::issue(&request);
                self.focus = Focus::Awaiting(request);
                action
            },
        }
    }

}

} // verus!
