//! Frames over several moves: the frame that two calls share, and the frame that a block
//! has for itself.

use vstd::prelude::*;
use crate::callable::JasnFunction;
use crate::environment::{
    Environment, lemma_ancestor_contained, lemma_ancestor_kept, lemma_inner_definition_shadows,
    lemma_len_fits,
};
use crate::machine::{Frame, Pending};
use crate::statements::Stmt;
use crate::token::{Token, Value};
use super::Interpreter;

verus! {

/// What runs between two moves may add frames and bind names, but it keeps the frames
/// that there are enclosed as they were. Here it also leaves `name` bound to `value` in
/// `frame`.
pub open spec fn keeps_binding(
    before: Environment,
    after: Environment,
    frame: int,
    name: Seq<char>,
    value: Value,
) -> bool {
    &&& before.len() <= after.len()
    &&& forall|i: int| 0 <= i < before.len() ==> after.enclosing(i) == before.enclosing(i)
    &&& after.bindings(frame).contains_key(name)
    &&& after.bindings(frame)[name] == value
}

impl<'a> Interpreter<'a> {
    /// Closures over one frame share it. Two functions are closed over the same frame.
    /// The first is called, and its body assigns `value` to a name at a distance of one
    /// or more from the frame of the call. Later the second is called, and its body reads
    /// the name at the same distance from the frame of its own call. Whatever ran in
    /// between, as long as it left the name bound to that value, the second call reads
    /// what the first has written: both distances end in the same frame, which is none
    /// of the two frames of the calls.
    pub proof fn lemma_calls_share_their_closure(
        start: Self,
        first: Self,
        written: Self,
        later: Self,
        second: Self,
        read: Self,
        writer: JasnFunction<'a>,
        reader: JasnFunction<'a>,
        first_base: Seq<Frame<'a>>,
        second_base: Seq<Frame<'a>>,
        first_arguments: Seq<Value>,
        second_arguments: Seq<Value>,
        name: Token,
        distance: u64,
        value: Value,
    )
        requires
            start.wf(),
            first.wf(),
            written.wf(),
            later.wf(),
            second.wf(),
            start.heap().contains(writer.closure as int),
            reader.closure == writer.closure,
            distance >= 1,
            first.entered(start, first_base, writer, first_arguments),
            written.assigned(first, &name, Some(distance), value),
            written.focus() is Produced,
            first.heap().ancestor(first.environment() as int, distance as nat) matches Some(
                shared,
            ) ==> keeps_binding(written.heap(), later.heap(), shared, name.lexeme@, value),
            second.entered(later, second_base, reader, second_arguments),
            read.reads(second, &name, Some(distance)),
        ensures
            first.heap().ancestor(first.environment() as int, distance as nat) matches Some(
                shared,
            ) && start.heap().contains(shared) && second.heap().ancestor(
                second.environment() as int,
                distance as nat,
            ) == Some(shared),
            read.produces(value),
    {
        let closure = writer.closure as int;
        let outward = (distance - 1) as nat;
        lemma_len_fits(start.heap());
        lemma_len_fits(later.heap());
        lemma_ancestor_contained(start.heap(), closure, outward);
        lemma_ancestor_kept(start.heap(), first.heap(), closure, outward);
        assert(first.heap().enclosing(first.environment() as int) == Some(closure));
        assert(first.heap().ancestor(first.environment() as int, distance as nat)
            == first.heap().ancestor(closure, outward));
        let shared = first.heap().ancestor(closure, outward).unwrap();
        lemma_ancestor_kept(first.heap(), written.heap(), closure, outward);
        lemma_ancestor_kept(written.heap(), later.heap(), closure, outward);
        lemma_ancestor_kept(later.heap(), second.heap(), closure, outward);
        assert(second.heap().enclosing(second.environment() as int) == Some(closure));
        assert(second.heap().ancestor(second.environment() as int, distance as nat)
            == second.heap().ancestor(closure, outward));
        assert(second.heap().bindings(shared) == later.heap().bindings(shared));
    }

    /// A block has a frame of its own. Executing a block makes a fresh frame, enclosed by
    /// the frame that was current. A name that is then bound in the block is bound in
    /// that frame: looked up inside the block it means the new value, and looked up from
    /// any frame that there was before the block, every name means what it meant. The
    /// work that was pending before the block is pending beneath it, unchanged.
    pub proof fn lemma_block_has_its_own_frame(
        before: Self,
        inside: Self,
        defined: Self,
        stmt: &'a Stmt,
        name: Seq<char>,
        value: Value,
    )
        requires
            before.wf(),
            inside.wf(),
            defined.wf(),
            *stmt is Block,
            inside.executed(before, stmt),
            defined.bound(inside, name, value),
        ensures
            !before.heap().contains(inside.environment() as int),
            inside.heap().enclosing(inside.environment() as int) == Some(
                before.environment() as int,
            ),
            defined.environment() == inside.environment(),
            defined.heap().lookup(inside.environment() as int, name) == Some(value),
            forall|frame: int, other: Seq<char>|
                before.heap().contains(frame) ==> defined.heap().lookup(frame, other)
                    == before.heap().lookup(frame, other),
            defined.frames().drop_last() == before.frames(),
            defined.frames().last().environment == inside.environment(),
    {
        lemma_len_fits(before.heap());
        lemma_inner_definition_shadows(
            before.heap(),
            inside.heap(),
            defined.heap(),
            before.environment() as int,
            name,
            value,
        );
        assert(defined.frames().drop_last() =~= before.frames());
    }

    /// A block gives its frame up. When the statements of a block have all completed,
    /// one move takes the block's work off, and the work that was pending beneath it is
    /// on top again. With the move after that, the frame of that work is the current one
    /// again, whatever that work goes on to do.
    pub proof fn lemma_block_leaves_its_frame(ended: Self, left: Self, resumed: Self)
        requires
            ended.frames().len() >= 2,
            ended.frames().last().pending matches Pending::Sequence { statements, next, top_level }
                && next >= statements.len(),
            left.proceeded(ended),
            resumed.proceeded(left),
        ensures
            left.frames() == ended.frames().drop_last(),
            left.same_stores(ended),
            resumed.environment() == left.frames().last().environment,
    {
    }
}

} // verus!
