//! The scope frames of a run.
//!
//! Frames are kept in one store and addressed by handle. Each frame but the global one
//! names the frame that encloses it, and that frame was created earlier, so the frames
//! form a tree. Whoever holds a handle sees every change made to that frame.

use vstd::prelude::*;
use vstd::string::*;
use crate::bindings::Bindings;
use crate::error_handler::Error;
use crate::token::{LiteralType, Token, Value};

verus! {

/// A handle to a frame.
pub type EnvRef = usize;

/// One scope frame: its bindings, and the frame around it.
#[derive(Debug)]
pub struct Scope {
    enclosing: Option<EnvRef>,
    bindings: Bindings,
}

/// The store of frames. Frame 0 is the global frame.
#[derive(Debug)]
pub struct Environment {
    scopes: Vec<Scope>,
}

/// The message for a name that no frame on the chain defines.
pub open spec fn undefined_variable_message(name: Seq<char>) -> Seq<char> {
    "Undefined variable '"@ + name + "'"@
}

/// The message for a walk that runs out of frames.
pub open spec fn missing_environment_message() -> Seq<char> {
    "Environment not found"@
}

/// The message for a frame that was reached but does not hold the name.
pub open spec fn missing_variable_message(name: Seq<char>) -> Seq<char> {
    "Variable not found '"@ + name + "'"@
}

impl Environment {
    /// The number of frames.
    pub closed spec fn len(&self) -> nat {
        self.scopes@.len()
    }

    /// The frame around a frame.
    pub closed spec fn enclosing(&self, frame: int) -> Option<int> {
        match self.scopes@[frame].enclosing {
            Some(parent) => Some(parent as int),
            None => None,
        }
    }

    /// What a frame binds.
    pub closed spec fn bindings(&self, frame: int) -> Map<Seq<char>, Value> {
        self.scopes@[frame].bindings@
    }

    /// The representation is in order.
    pub closed spec fn sound(&self) -> bool {
        forall|i: int| 0 <= i < self.scopes@.len() ==> (#[trigger] self.scopes@[i]).bindings.wf()
    }

    /// Whether a handle names a frame of this store.
    pub open spec fn contains(&self, frame: int) -> bool {
        0 <= frame < self.len()
    }

    /// The global frame exists and has no frame around it; every other frame is enclosed
    /// by an earlier one.
    pub open spec fn wf(&self) -> bool {
        &&& self.sound()
        &&& self.len() >= 1
        &&& self.enclosing(0) is None
        &&& forall|i: int|
            0 < i < self.len() ==> (#[trigger] self.enclosing(i) matches Some(parent) && 0
                <= parent < i)
    }

    /// The frame reached from `frame` by `distance` steps outward.
    pub open spec fn ancestor(&self, frame: int, distance: nat) -> Option<int>
        decreases distance,
    {
        if distance == 0 {
            Some(frame)
        } else {
            match self.enclosing(frame) {
                Some(parent) => self.ancestor(parent, (distance - 1) as nat),
                None => None,
            }
        }
    }

    /// The nearest frame, from `frame` outward, that binds `name`.
    pub open spec fn holder(&self, frame: int, name: Seq<char>) -> Option<int>
        decreases frame,
        when self.wf() && self.contains(frame)
    {
        if self.bindings(frame).contains_key(name) {
            Some(frame)
        } else {
            match self.enclosing(frame) {
                Some(parent) => self.holder(parent, name),
                None => None,
            }
        }
    }

    /// What `name` means when looked up from `frame`.
    pub open spec fn lookup(&self, frame: int, name: Seq<char>) -> Option<Value> {
        match self.holder(frame, name) {
            Some(found) => Some(self.bindings(found)[name]),
            None => None,
        }
    }

    /// This store is `before` with `name` bound to `value` in `frame`, and nothing else
    /// changed.
    pub open spec fn rebinds(
        &self,
        before: Environment,
        frame: int,
        name: Seq<char>,
        value: Value,
    ) -> bool {
        &&& self.len() == before.len()
        &&& forall|i: int| 0 <= i < self.len() ==> self.enclosing(i) == before.enclosing(i)
        &&& self.bindings(frame) == before.bindings(frame).insert(name, value)
        &&& forall|i: int|
            0 <= i < self.len() && i != frame ==> self.bindings(i) == before.bindings(i)
    }

    /// This store is `before` with one more frame, which is empty and enclosed by
    /// `parent`.
    pub open spec fn extends(&self, before: Environment, parent: int) -> bool {
        &&& self.len() == before.len() + 1
        &&& self.enclosing(before.len() as int) == Some(parent)
        &&& self.bindings(before.len() as int) == Map::<Seq<char>, Value>::empty()
        &&& forall|i: int| 0 <= i < before.len() ==> self.enclosing(i) == before.enclosing(i)
        &&& forall|i: int| 0 <= i < before.len() ==> self.bindings(i) == before.bindings(i)
    }

    /// A store that holds the global frame, with nothing bound in it.
    pub fn new() -> (store: Self)
        ensures
            store.wf(),
            store.len() == 1,
            store.bindings(0) == Map::<Seq<char>, Value>::empty(),
    {
        let mut scopes: Vec<Scope> = Vec::new();
        scopes.push(Scope { enclosing: None, bindings: Bindings::new() });
        Environment { scopes }
    }

    /// The number of frames.
    pub fn count(&self) -> (n: usize)
        ensures
            n == self.len(),
    {
        self.scopes.len()
    }

    /// The frame around `frame`.
    pub fn parent(&self, frame: EnvRef) -> (parent: Option<EnvRef>)
        requires
            self.contains(frame as int),
        ensures
            match parent {
                Some(p) => self.enclosing(frame as int) == Some(p as int),
                None => self.enclosing(frame as int) is None,
            },
    {
        self.scopes[frame].enclosing
    }

    /// Creates an empty frame enclosed by `enclosing` and returns its handle.
    pub fn nest(&mut self, enclosing: EnvRef) -> (frame: EnvRef)
        requires
            old(self).wf(),
            old(self).contains(enclosing as int),
        ensures
            final(self).wf(),
            final(self).extends(*old(self), enclosing as int),
            frame == old(self).len(),
    {
        let frame = self.scopes.len();
        self.scopes.push(Scope { enclosing: Some(enclosing), bindings: Bindings::new() });
        proof {
            assert forall|i: int| 0 <= i < self.scopes@.len() implies (
            #[trigger] self.scopes@[i]).bindings.wf() by {
                if i < frame {
                    assert(self.scopes@[i] == old(self).scopes@[i]);
                }
            }
            assert forall|i: int| 0 < i < self.len() implies (
            #[trigger] self.enclosing(i) matches Some(parent) && 0 <= parent < i) by {
                if i < frame {
                    assert(self.scopes@[i] == old(self).scopes@[i]);
                    assert(self.enclosing(i) == old(self).enclosing(i));
                }
            }
        }
        frame
    }

    /// Binds `name` to `value` in `frame` itself, whether or not the name was bound there.
    pub fn define(&mut self, frame: EnvRef, name: String, value: LiteralType)
        requires
            old(self).wf(),
            old(self).contains(frame as int),
        ensures
            final(self).wf(),
            final(self).rebinds(*old(self), frame as int, name@, value@),
    {
        self.scopes[frame].bindings.insert(name, value);
        proof {
            assert forall|i: int| 0 <= i < self.scopes@.len() implies (
            #[trigger] self.scopes@[i]).bindings.wf() by {
                if i != frame {
                    assert(self.scopes@[i] == old(self).scopes@[i]);
                }
            }
            assert forall|i: int| 0 <= i < self.len() implies self.enclosing(i) == old(self).enclosing(i) by {
                if i != frame {
                    assert(self.scopes@[i] == old(self).scopes@[i]);
                }
            }
            assert forall|i: int| 0 < i < self.len() implies (
            #[trigger] self.enclosing(i) matches Some(parent) && 0 <= parent < i) by {
                assert(self.enclosing(i) == old(self).enclosing(i));
            }
        }
    }

    /// The nearest frame from `frame` outward that binds `name`.
    fn find_holder(&self, frame: EnvRef, name: &String) -> (found: Option<EnvRef>)
        requires
            self.wf(),
            self.contains(frame as int),
        ensures
            match found {
                Some(f) => self.holder(frame as int, name@) == Some(f as int) && self.contains(
                    f as int,
                ) && self.bindings(f as int).contains_key(name@),
                None => self.holder(frame as int, name@) is None,
            },
    {
        let mut current: usize = frame;
        loop
            invariant
                self.wf(),
                self.contains(current as int),
                self.holder(frame as int, name@) == self.holder(current as int, name@),
            decreases current,
        {
            if self.scopes[current].bindings.contains(name) {
                return Some(current);
            }
            match self.scopes[current].enclosing {
                Some(parent) => {
                    assert(self.enclosing(current as int) == Some(parent as int));
                    current = parent;
                },
                None => {
                    assert(self.enclosing(current as int) is None);
                    return None;
                },
            }
        }
    }

    /// The frame `distance` steps outward from `frame`.
    fn find_ancestor(&self, frame: EnvRef, distance: u64) -> (found: Option<EnvRef>)
        requires
            self.wf(),
            self.contains(frame as int),
        ensures
            match found {
                Some(f) => self.ancestor(frame as int, distance as nat) == Some(f as int)
                    && self.contains(f as int),
                None => self.ancestor(frame as int, distance as nat) is None,
            },
    {
        let mut current: usize = frame;
        let mut remaining: u64 = distance;
        while remaining > 0
            invariant
                self.wf(),
                self.contains(current as int),
                self.ancestor(frame as int, distance as nat) == self.ancestor(
                    current as int,
                    remaining as nat,
                ),
            decreases remaining,
        {
            match self.scopes[current].enclosing {
                Some(parent) => {
                    assert(self.enclosing(current as int) == Some(parent as int));
                    current = parent;
                    remaining = remaining - 1;
                },
                None => {
                    assert(self.enclosing(current as int) is None);
                    return None;
                },
            }
        }
        Some(current)
    }

    /// Looks `token`'s name up from `frame` outward and returns a copy of the value of the
    /// nearest binding; fails where no frame on the chain binds the name.
    pub fn get(&self, frame: EnvRef, token: &Token) -> (result: Result<LiteralType, Error>)
        requires
            self.wf(),
            self.contains(frame as int),
        ensures
            match self.lookup(frame as int, token.lexeme@) {
                Some(value) => result matches Ok(found) && found@ == value,
                None => result matches Err(Error::RuntimeError(line, message)) && line
                    == token.line && message@ == undefined_variable_message(token.lexeme@),
            },
    {
        match self.find_holder(frame, &token.lexeme) {
            Some(holder) => {
                match self.scopes[holder].bindings.get(&token.lexeme) {
                    Some(value) => Ok(value),
                    None => Err(undefined_variable(token)),
                }
            },
            None => Err(undefined_variable(token)),
        }
    }

    /// Returns a copy of what `name` is bound to in the frame exactly `distance` steps
    /// outward from `frame`. Fails where the chain is shorter than that, or where that
    /// frame does not bind the name.
    pub fn get_at(&self, frame: EnvRef, distance: u64, name: &String) -> (result: Result<
        LiteralType,
        Error,
    >)
        requires
            self.wf(),
            self.contains(frame as int),
        ensures
            match self.ancestor(frame as int, distance as nat) {
                Some(found) => if self.bindings(found).contains_key(name@) {
                    result matches Ok(value) && value@ == self.bindings(found)[name@]
                } else {
                    result matches Err(Error::RuntimeError(line, message)) && line == 0
                        && message@ == missing_variable_message(name@)
                },
                None => result matches Err(Error::RuntimeError(line, message)) && line == 0
                    && message@ == missing_environment_message(),
            },
    {
        match self.find_ancestor(frame, distance) {
            Some(found) => {
                match self.scopes[found].bindings.get(name) {
                    Some(value) => Ok(value),
                    None => {
                        let message = String::from_str("Variable not found '").concat(
                            name.as_str(),
                        ).concat("'");
                        Err(Error::RuntimeError(0, message))
                    },
                }
            },
            None => Err(Error::RuntimeError(0, String::from_str("Environment not found"))),
        }
    }

    /// Rebinds `token`'s name in the nearest frame, from `frame` outward, that already
    /// binds it; fails, changing nothing, where no frame does.
    pub fn assign(&mut self, frame: EnvRef, token: &Token, value: LiteralType) -> (result:
        Result<(), Error>)
        requires
            old(self).wf(),
            old(self).contains(frame as int),
        ensures
            final(self).wf(),
            match old(self).holder(frame as int, token.lexeme@) {
                Some(holder) => result is Ok && final(self).rebinds(
                    *old(self),
                    holder,
                    token.lexeme@,
                    value@,
                ),
                None => *final(self) == *old(self) && (result matches Err(
                    Error::RuntimeError(line, message),
                ) && line == token.line && message@ == undefined_variable_message(
                    token.lexeme@,
                )),
            },
    {
        match self.find_holder(frame, &token.lexeme) {
            Some(holder) => {
                let name: String = token.lexeme.clone();
                self.define(holder, name, value);
                Ok(())
            },
            None => Err(undefined_variable(token)),
        }
    }

    /// Binds `token`'s name in the frame exactly `distance` steps outward from `frame`,
    /// whether or not it was bound there; fails, changing nothing, where the chain is
    /// shorter than that.
    pub fn assign_at(
        &mut self,
        frame: EnvRef,
        distance: u64,
        token: &Token,
        value: LiteralType,
    ) -> (result: Result<(), Error>)
        requires
            old(self).wf(),
            old(self).contains(frame as int),
        ensures
            final(self).wf(),
            match old(self).ancestor(frame as int, distance as nat) {
                Some(found) => result is Ok && final(self).rebinds(
                    *old(self),
                    found,
                    token.lexeme@,
                    value@,
                ),
                None => *final(self) == *old(self) && (result matches Err(
                    Error::RuntimeError(line, message),
                ) && line == 0 && message@ == missing_environment_message()),
            },
    {
        match self.find_ancestor(frame, distance) {
            Some(found) => {
                let name: String = token.lexeme.clone();
                self.define(found, name, value);
                Ok(())
            },
            None => Err(Error::RuntimeError(0, String::from_str("Environment not found"))),
        }
    }

    /// Whether `frame` itself binds `name`.
    pub fn defines(&self, frame: EnvRef, name: &String) -> (found: bool)
        requires
            self.wf(),
            self.contains(frame as int),
        ensures
            found == self.bindings(frame as int).contains_key(name@),
    {
        self.scopes[frame].bindings.contains(name)
    }
}

/// The error for a name that no frame on the chain defines.
pub fn undefined_variable(token: &Token) -> (error: Error)
    ensures
        error matches Error::RuntimeError(line, message) && line == token.line && message@
            == undefined_variable_message(token.lexeme@),
{
    let message = String::from_str("Undefined variable '").concat(token.lexeme.as_str()).concat(
        "'",
    );
    Error::RuntimeError(token.line, message)
}

/// What a walk outward from `frame` finds depends only on `frame` and the frames before
/// it: two stores that agree up to `frame` agree on every holder found from it.
pub proof fn lemma_holder_is_local(
    first: Environment,
    second: Environment,
    frame: int,
    name: Seq<char>,
)
    requires
        first.wf(),
        second.wf(),
        first.contains(frame),
        second.contains(frame),
        forall|i: int| 0 <= i <= frame ==> first.enclosing(i) == second.enclosing(i),
        forall|i: int|
            0 <= i <= frame ==> first.bindings(i).contains_key(name) == second.bindings(
                i,
            ).contains_key(name),
    ensures
        first.holder(frame, name) == second.holder(frame, name),
    decreases frame,
{
    if !first.bindings(frame).contains_key(name) {
        match first.enclosing(frame) {
            Some(parent) => {
                lemma_holder_is_local(first, second, parent, name);
            },
            None => {},
        }
    }
}

/// A holder found from a frame is a frame of the store, not after the start, and binds
/// the name.
pub proof fn lemma_holder_binds(store: Environment, frame: int, name: Seq<char>)
    requires
        store.wf(),
        store.contains(frame),
    ensures
        store.holder(frame, name) matches Some(found) ==> 0 <= found <= frame
            && store.bindings(found).contains_key(name),
    decreases frame,
{
    if !store.bindings(frame).contains_key(name) {
        match store.enclosing(frame) {
            Some(parent) => {
                lemma_holder_binds(store, parent, name);
            },
            None => {},
        }
    }
}

/// An ancestor of a frame is a frame of the store, not after the start.
pub proof fn lemma_ancestor_contained(store: Environment, frame: int, distance: nat)
    requires
        store.wf(),
        store.contains(frame),
    ensures
        store.ancestor(frame, distance) matches Some(found) ==> 0 <= found <= frame,
    decreases distance,
{
    if distance > 0 {
        match store.enclosing(frame) {
            Some(parent) => {
                lemma_ancestor_contained(store, parent, (distance - 1) as nat);
            },
            None => {},
        }
    }
}

/// The number of frames of a store fits a handle.
pub proof fn lemma_len_fits(store: Environment)
    ensures
        store.len() <= usize::MAX,
{
    assert(store.scopes@.len() == store.scopes.len());
}

/// A store that keeps its frames enclosed as they were keeps where the steps outward from
/// a frame lead.
pub proof fn lemma_ancestor_kept(before: Environment, after: Environment, frame: int, distance: nat)
    requires
        before.wf(),
        before.contains(frame),
        before.len() <= after.len(),
        forall|i: int| 0 <= i < before.len() ==> after.enclosing(i) == before.enclosing(i),
    ensures
        after.ancestor(frame, distance) == before.ancestor(frame, distance),
    decreases distance,
{
    if distance > 0 {
        match before.enclosing(frame) {
            Some(parent) => {
                lemma_ancestor_kept(before, after, parent, (distance - 1) as nat);
            },
            None => {},
        }
    }
}

/// Frames that share the holder of a name share the binding: after one of them assigns
/// to the name, the other reads the value that was written.
pub proof fn lemma_assignment_is_shared(
    before: Environment,
    after: Environment,
    writer: int,
    reader: int,
    name: Seq<char>,
    value: Value,
)
    requires
        before.wf(),
        after.wf(),
        before.contains(writer),
        before.contains(reader),
        before.holder(writer, name) is Some,
        before.holder(reader, name) == before.holder(writer, name),
        after.rebinds(before, before.holder(writer, name).unwrap(), name, value),
    ensures
        after.lookup(writer, name) == Some(value),
        after.lookup(reader, name) == Some(value),
{
    let shared = before.holder(writer, name).unwrap();
    lemma_holder_binds(before, writer, name);
    assert forall|i: int| 0 <= i < before.len() implies before.bindings(i).contains_key(name)
        == after.bindings(i).contains_key(name) by {
        if i != shared {
            assert(after.bindings(i) == before.bindings(i));
        }
    }
    lemma_holder_is_local(before, after, writer, name);
    lemma_holder_is_local(before, after, reader, name);
}

/// A definition in a nested frame shadows and does not overwrite: inside, the name means
/// the inner value; from every frame that existed before, every name means what it meant.
pub proof fn lemma_inner_definition_shadows(
    before: Environment,
    nested: Environment,
    after: Environment,
    outer: int,
    name: Seq<char>,
    value: Value,
)
    requires
        before.wf(),
        nested.wf(),
        after.wf(),
        before.contains(outer),
        nested.extends(before, outer),
        after.rebinds(nested, before.len() as int, name, value),
    ensures
        after.lookup(before.len() as int, name) == Some(value),
        forall|frame: int, other: Seq<char>|
            before.contains(frame) ==> after.lookup(frame, other) == before.lookup(
                frame,
                other,
            ),
{
    assert forall|frame: int, other: Seq<char>| before.contains(frame) implies after.lookup(
        frame,
        other,
    ) == before.lookup(frame, other) by {
        assert forall|i: int| 0 <= i <= frame implies before.enclosing(i) == after.enclosing(
            i,
        ) by {
            assert(nested.enclosing(i) == before.enclosing(i));
        }
        assert forall|i: int| 0 <= i <= frame implies before.bindings(i).contains_key(other)
            == after.bindings(i).contains_key(other) by {
            assert(nested.bindings(i) == before.bindings(i));
            assert(after.bindings(i) == nested.bindings(i));
        }
        lemma_holder_is_local(before, after, frame, other);
        lemma_holder_binds(before, frame, other);
        match before.holder(frame, other) {
            Some(found) => {
                assert(nested.bindings(found) == before.bindings(found));
                assert(after.bindings(found) == nested.bindings(found));
            },
            None => {},
        }
    }
}

} // verus!
