//! The state that one generation attempt threads through the token tree.

use vstd::prelude::*;

verus! {

/// State of one generation attempt. A fresh context is made for every
/// attempt and dropped after it.
pub struct TokenContext {
    /// How many repetitions beyond its minimum a quantifier without upper
    /// bound may make.
    pub max_repeat: usize,
    /// The text last captured by each group: the group with identity `id`
    /// has slot `id - 1`.
    pub captures: Vec<Option<String>>,
    /// Back-references met before their group had captured anything, each as
    /// the output position at which it was met and the group's identity.
    pub unresolved_refs: Vec<(usize, usize)>,
    /// Number of bytes emitted so far at the current nesting level.
    current_output_len: usize,
}

/// Mathematical view of a [`TokenContext`].
pub struct ContextView {
    pub max_repeat: nat,
    pub captures: Seq<Option<Seq<char>>>,
    pub unresolved: Seq<(nat, nat)>,
    pub cursor: nat,
}

/// The capture slot that the group with identity `id` uses.
pub open spec fn slot_of(id: nat) -> nat {
    if id == 0 {
        0
    } else {
        (id - 1) as nat
    }
}

impl ContextView {
    /// The context at the start of an attempt.
    pub open spec fn fresh(max_repeat: nat) -> ContextView {
        ContextView { max_repeat, captures: Seq::empty(), unresolved: Seq::empty(), cursor: 0 }
    }

    /// The same context with the output cursor at `len`.
    pub open spec fn with_cursor(self, len: nat) -> ContextView {
        ContextView { cursor: len, ..self }
    }

    /// The text held for group `id`, if any.
    pub open spec fn lookup(self, id: nat) -> Option<Seq<char>> {
        if slot_of(id) < self.captures.len() {
            self.captures[slot_of(id) as int]
        } else {
            None
        }
    }

    /// The capture table after `text` was recorded for group `id`: the slot
    /// of the group holds `text`, whatever it held before; slots that had to
    /// be added below it are empty. Identity 0 appends a slot.
    pub open spec fn recorded(self, id: nat, text: Seq<char>) -> Seq<Option<Seq<char>>> {
        if id == 0 {
            self.captures.push(Some(text))
        } else {
            let slot = (id - 1) as nat;
            let len = if self.captures.len() <= slot {
                slot + 1
            } else {
                self.captures.len()
            };
            Seq::new(
                len,
                |i: int|
                    if i == slot {
                        Some(text)
                    } else if i < self.captures.len() {
                        self.captures[i]
                    } else {
                        None
                    },
            )
        }
    }

    /// The context after `text` was recorded for group `id`.
    pub open spec fn record(self, id: nat, text: Seq<char>) -> ContextView {
        ContextView { captures: self.recorded(id, text), ..self }
    }

    /// The context after a reference to group `id` was put off at the
    /// current cursor.
    pub open spec fn defer(self, id: nat) -> ContextView {
        ContextView { unresolved: self.unresolved.push((self.cursor, id)), ..self }
    }
}

/// The text of a capture slot.
pub open spec fn slot_view(slot: Option<String>) -> Option<Seq<char>> {
    match slot {
        Some(text) => Some(text@),
        None => None,
    }
}

impl View for TokenContext {
    type V = ContextView;

    closed spec fn view(&self) -> ContextView {
        ContextView {
            max_repeat: self.max_repeat as nat,
            captures: Seq::new(self.captures.len() as nat, |i: int| slot_view(self.captures[i])),
            unresolved: Seq::new(
                self.unresolved_refs.len() as nat,
                |i: int| (self.unresolved_refs[i].0 as nat, self.unresolved_refs[i].1 as nat),
            ),
            cursor: self.current_output_len as nat,
        }
    }
}

impl TokenContext {

    /// A context with the default repetition bound of 32.
    pub fn new() -> (ctx: TokenContext)
        ensures
            ctx@ == ContextView::fresh(32),
    {
        TokenContext::new_with_max_repeat(32)
    }

    /// A context with the given repetition bound, no captures, no
    /// unresolved references and the cursor at 0.
    pub fn new_with_max_repeat(max_repeat: usize) -> (ctx: TokenContext)
        ensures
            ctx@ == ContextView::fresh(max_repeat as nat),
    {
        let ctx = TokenContext {
            max_repeat,
            captures: Vec::new(),
            unresolved_refs: Vec::new(),
            current_output_len: 0,
        };
        assert(ctx@.captures =~= Seq::empty());
        assert(ctx@.unresolved =~= Seq::empty());
        ctx
    }

    /// Sets the output cursor, in bytes, before the next token is generated.
    pub fn set_output_len(&mut self, len: usize)
        ensures
            final(self)@ == old(self)@.with_cursor(len as nat),
    {
        self.current_output_len = len;
    }

    /// Records a reference to group `group_id` that cannot be resolved yet,
    /// at the current output cursor.
    pub fn add_unresolved(&mut self, group_id: usize)
        ensures
            final(self)@ == old(self)@.defer(group_id as nat),
    {
        self.unresolved_refs.push((self.current_output_len, group_id));
        assert(self@.unresolved =~= old(self)@.unresolved.push(
            (old(self)@.cursor, group_id as nat),
        ));
        assert(self@.captures =~= old(self)@.captures);
    }

    /// Records `s` as the text of group `group_id`, in place of what the
    /// group held before. Identity 0 appends the text in a new slot.
    pub fn record_capture(&mut self, group_id: usize, s: String)
        ensures
            final(self)@ == old(self)@.record(group_id as nat, s@),
    {
        if group_id == 0 {
            self.captures.push(Some(s));
        } else {
            let slot = group_id - 1;
            while self.captures.len() <= slot
                invariant
                    self.max_repeat == old(self).max_repeat,
                    self.unresolved_refs == old(self).unresolved_refs,
                    self.current_output_len == old(self).current_output_len,
                    old(self).captures.len() <= self.captures.len(),
                    self.captures.len() <= slot + 1 || self.captures.len() == old(
                        self,
                    ).captures.len(),
                    forall|i: int|
                        0 <= i < old(self).captures.len() ==> self.captures[i] == old(
                            self,
                        ).captures[i],
                    forall|i: int|
                        old(self).captures.len() <= i < self.captures.len()
                            ==> self.captures[i] is None,
                decreases slot + 1 - self.captures.len(),
            {
                self.captures.push(None);
            }
            self.captures[slot] = Some(s);
        }
        assert(self@.captures =~= old(self)@.recorded(group_id as nat, s@));
        assert(self@.unresolved =~= old(self)@.unresolved);
    }

    /// A copy of the text held for group `group_id`, if any.
    pub fn get_capture(&self, group_id: usize) -> (text: Option<String>)
        ensures
            slot_view(text) == self@.lookup(group_id as nat),
    {
        let slot = if group_id == 0 {
            0
        } else {
            group_id - 1
        };
        if slot < self.captures.len() {
            match &self.captures[slot] {
                Some(text) => Some(text.clone()),
                None => None,
            }
        } else {
            None
        }
    }

    /// The number of bytes emitted so far at the current nesting level, as
    /// last set.
    pub fn output_len(&self) -> (len: usize)
        ensures
            len == self@.cursor,
    {
        self.current_output_len
    }

    /// The number of references that were put off.
    pub fn unresolved_count(&self) -> (n: usize)
        ensures
            n == self@.unresolved.len(),
    {
        self.unresolved_refs.len()
    }

    /// The `i`-th reference that was put off: the output position at which
    /// it was met, and the identity of its group.
    pub fn unresolved_at(&self, i: usize) -> (entry: (usize, usize))
        requires
            i < self@.unresolved.len(),
        ensures
            (entry.0 as nat, entry.1 as nat) == self@.unresolved[i as int],
    {
        self.unresolved_refs[i]
    }

    /// The number of capture slots.
    pub fn capture_slots(&self) -> (n: usize)
        ensures
            n == self@.captures.len(),
    {
        self.captures.len()
    }

    /// The repetition bound for quantifiers without upper bound.
    pub fn repeat_bound(&self) -> (bound: usize)
        ensures
            bound == self@.max_repeat,
    {
        self.max_repeat
    }
}

} // verus!
