use vstd::prelude::*;
use std::collections::VecDeque;
use crate::editor::message::Message;

verus! {

/// The most actions that an `UndoTrace` keeps.
pub const MAX_TRACE: usize = usize::MAX;

/// The actions that can be undone, oldest first.
pub struct UndoTrace {
    actions: VecDeque<Message>,
}

impl UndoTrace {
    pub closed spec fn view(&self) -> Seq<Message> {
        self.actions@
    }

    pub fn new() -> (trace: Self)
        ensures
            trace@ == Seq::<Message>::empty(),
    {
        Self { actions: VecDeque::new() }
    }

    /// Records `message` as the newest action; a full trace forgets its oldest.
    pub fn push(&mut self, message: Message)
        ensures
            old(self)@.len() == MAX_TRACE ==> final(self)@ == old(self)@.skip(1).push(message),
            old(self)@.len() != MAX_TRACE ==> final(self)@ == old(self)@.push(message),
    {
        if self.actions.len() == MAX_TRACE {
            self.actions.pop_front();
        }
        self.actions.push_back(message);
    }

    pub fn len(&self) -> (n: usize)
        ensures
            n == self@.len(),
    {
        self.actions.len()
    }

    /// The action `index` places from the oldest.
    pub fn get(&self, index: usize) -> (action: Option<Message>)
        ensures
            index < self@.len() ==> action == Some(self@[index as int]),
            index >= self@.len() ==> action.is_none(),
    {
        if index < self.actions.len() {
            Some(self.actions[index])
        } else {
            None
        }
    }
}

} // verus!
