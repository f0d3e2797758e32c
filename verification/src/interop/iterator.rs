use super::status::{NssStatus, Response};
use vstd::prelude::*;

verus! {

/// What an [`Iterator`] stands for: the records of one enumeration and how
/// many of them were served.
pub struct IteratorView<T> {
    pub records: Seq<T>,
    pub cursor: nat,
}

impl<T> IteratorView<T> {
    pub open spec fn wf(self) -> bool {
        self.cursor <= self.records.len()
    }

    /// The state between enumerations.
    pub open spec fn closed() -> Self {
        IteratorView { records: Seq::empty(), cursor: 0 }
    }

    /// The state at the start of an enumeration of `records`.
    pub open spec fn opened(records: Seq<T>) -> Self {
        IteratorView { records, cursor: 0 }
    }

    /// The record that the next step serves, if one is left.
    pub open spec fn current(self) -> Option<T> {
        if self.cursor < self.records.len() {
            Some(self.records[self.cursor as int])
        } else {
            None
        }
    }

    /// What the next step answers: the record at the cursor, or that none is
    /// left.
    pub open spec fn served(self) -> Response<T> {
        match self.current() {
            Some(record) => Response::Success(record),
            None => Response::NotFound,
        }
    }

    /// The state after one step.
    pub open spec fn advance(self) -> Self {
        if self.cursor < self.records.len() {
            IteratorView { cursor: self.cursor + 1, ..self }
        } else {
            self
        }
    }

    /// The state after `n` steps.
    pub open spec fn advance_by(self, n: nat) -> Self
        decreases n,
    {
        if n == 0 {
            self
        } else {
            self.advance().advance_by((n - 1) as nat)
        }
    }

    /// The state after one step back.
    pub open spec fn rewind(self) -> Self {
        if self.cursor > 0 {
            IteratorView { cursor: (self.cursor - 1) as nat, ..self }
        } else {
            self
        }
    }
}

/// The records of one enumeration with a cursor: the only state that
/// outlives a call of an entry point.
pub struct Iterator<T> {
    items: Vec<T>,
    index: usize,
}

impl<T> View for Iterator<T> {
    type V = IteratorView<T>;

    closed spec fn view(&self) -> IteratorView<T> {
        IteratorView { records: self.items@, cursor: self.index as nat }
    }
}

impl<T> Iterator<T> {
    #[verifier::type_invariant]
    spec fn inv(self) -> bool {
        self.index <= self.items@.len()
    }

    /// An iterator between enumerations.
    pub fn new() -> (iterator: Self)
        ensures
            iterator@ == IteratorView::<T>::closed(),
    {
        Iterator { items: Vec::new(), index: 0 }
    }

    /// Starts an enumeration of `items`, whatever the state was.
    pub fn open(&mut self, items: Vec<T>) -> (status: NssStatus)
        ensures
            status == NssStatus::Success,
            final(self)@ == IteratorView::opened(items@),
    {
        self.index = 0;
        self.items = items;
        NssStatus::Success
    }

    /// Ends the enumeration and lets go of its records.
    pub fn close(&mut self) -> (status: NssStatus)
        ensures
            status == NssStatus::Success,
            final(self)@ == IteratorView::<T>::closed(),
    {
        self.index = 0;
        self.items = Vec::new();
        NssStatus::Success
    }

    /// Serves a copy of the record at the cursor and steps past it; once the
    /// records are used up, answers `NotFound` and stays where it is.
    pub fn next(&mut self) -> (response: Response<T>) where T: Clone
        ensures
            old(self)@.wf(),
            final(self)@ == old(self)@.advance(),
            match old(self)@.current() {
                Some(record) => response is Success && cloned(record, response->Success_0),
                None => response == Response::<T>::NotFound,
            },
    {
        proof {
            use_type_invariant(&*self);
        }
        if self.index < self.items.len() {
            let item = self.items[self.index].clone();
            self.index = self.index + 1;
            Response::Success(item)
        } else {
            Response::NotFound
        }
    }

    /// Steps back by one record, so that the record served last is served
    /// again; at the start it stays where it is.
    pub fn rewind_one_step(&mut self)
        ensures
            old(self)@.wf(),
            final(self)@ == old(self)@.rewind(),
    {
        proof {
            use_type_invariant(&*self);
        }
        if self.index > 0 {
            self.index = self.index - 1;
        }
    }
}

/// After an enumeration of `records` was opened, step `k` serves record `k`
/// while `k` is less than their number, and nothing from then on: each
/// record once, in the order given.
pub proof fn lemma_served_in_order<T>(records: Seq<T>, k: nat)
    ensures
        IteratorView::opened(records).advance_by(k).current() == if k < records.len() {
            Some(records[k as int])
        } else {
            None::<T>
        },
{
    lemma_advance_by(IteratorView::opened(records), k);
}

/// `n` steps move the cursor by `n`, but not past the end, and keep the records.
pub proof fn lemma_advance_by<T>(state: IteratorView<T>, n: nat)
    requires
        state.wf(),
    ensures
        state.advance_by(n).records == state.records,
        state.advance_by(n).cursor == if state.cursor + n <= state.records.len() {
            state.cursor + n
        } else {
            state.records.len()
        },
    decreases n,
{
    if n > 0 {
        lemma_advance_by(state.advance(), (n - 1) as nat);
    }
}

/// One step back after a step that served a record undoes the step, so the
/// step that follows serves the same record again.
pub proof fn lemma_rewind_undoes_advance<T>(state: IteratorView<T>)
    requires
        state.wf(),
        state.current() is Some,
    ensures
        state.advance().rewind() == state,
        state.advance().rewind().current() == state.current(),
{
}

/// From any position but the start, one step back and one step forth serve
/// the record before the cursor and end where they began.
pub proof fn lemma_rewind_then_next<T>(state: IteratorView<T>)
    requires
        state.wf(),
        state.cursor > 0,
    ensures
        state.rewind().current() == Some(state.records[state.cursor - 1]),
        state.rewind().advance() == state,
{
}

} // verus!
