//! The waiter table of a client connection: one single-shot waiter per
//! request in flight, keyed by the request's numeric id.

use vstd::prelude::*;

use crate::message::{Id, Response};

verus! {

/// Whether some entry of `s` has id `id`.
pub open spec fn has_id<W>(s: Seq<(u32, W)>, id: u32) -> bool {
    exists|i: int| 0 <= i < s.len() && #[trigger] s[i].0 == id
}

/// No two entries of `s` share an id.
pub open spec fn unique_ids<W>(s: Seq<(u32, W)>) -> bool {
    forall|i: int, j: int| 0 <= i < s.len() && 0 <= j < s.len() && i != j ==> s[i].0 != s[j].0
}

/// Waiters keyed by request id. An id is held at most once: it can be used
/// again only after its waiter has been taken.
///
/// The entries are kept in a vector and looked up by a linear scan, not in a
/// `HashMap`: closing the table must move every waiter out, and moving values
/// out of a `HashMap` (`drain`, `into_values`) has no specification to verify
/// against. The table holds only the calls in flight on one connection.
pub struct Waiters<W> {
    entries: Vec<(u32, W)>,
}

/// What became of an incoming response.
pub enum Delivery<W> {
    /// The waiter registered under the response's id, taken from the table.
    Deliver(W, Response),
    /// No waiter is registered under the response's id.
    Unexpected(Response),
}

impl<W> View for Waiters<W> {
    type V = Seq<(u32, W)>;

    closed spec fn view(&self) -> Seq<(u32, W)> {
        self.entries@
    }
}

impl<W> Waiters<W> {
    /// No id is held twice.
    pub open spec fn wf(&self) -> bool {
        unique_ids(self@)
    }

    pub fn new() -> (r: Self)
        ensures
            r.wf(),
            r@ == Seq::<(u32, W)>::empty(),
    {
        Waiters { entries: Vec::new() }
    }

    pub fn len(&self) -> (r: usize)
        ensures
            r == self@.len(),
    {
        self.entries.len()
    }

    fn find(&self, id: u32) -> (r: Option<usize>)
        ensures
            r matches Some(i) ==> i < self@.len() && self@[i as int].0 == id,
            r is None ==> !has_id(self@, id),
    {
        let mut i: usize = 0;
        while i < self.entries.len()
            invariant
                i <= self.entries.len(),
                forall|j: int| 0 <= j < i ==> self.entries@[j].0 != id,
            decreases self.entries.len() - i,
        {
            if self.entries[i].0 == id {
                return Some(i);
            }
            i = i + 1;
        }
        None
    }

    /// Whether a waiter is registered under `id`.
    pub fn contains(&self, id: u32) -> (r: bool)
        ensures
            r == has_id(self@, id),
    {
        self.find(id).is_some()
    }

    /// Registers a waiter under `id`; a taken id is refused, and the waiter
    /// handed back.
    pub fn add_receiver(&mut self, id: u32, waiter: W) -> (r: Result<(), W>)
        requires
            old(self).wf(),
        ensures
            final(self).wf(),
            r is Ok <==> !has_id(old(self)@, id),
            r is Ok ==> final(self)@ == old(self)@.push((id, waiter)),
            r matches Err(w) ==> w == waiter && final(self)@ == old(self)@,
    {
        if self.find(id).is_some() {
            return Err(waiter);
        }
        self.entries.push((id, waiter));
        Ok(())
    }

    /// Takes the waiter registered under `id`, if any.
    pub fn take(&mut self, id: u32) -> (r: Option<W>)
        requires
            old(self).wf(),
        ensures
            final(self).wf(),
            r is Some <==> has_id(old(self)@, id),
            r matches Some(w) ==> exists|i: int|
                0 <= i < old(self)@.len() && old(self)@[i] == (id, w) && final(self)@ == old(self)@.remove(i),
            r is None ==> final(self)@ == old(self)@,
            !has_id(final(self)@, id),
    {
        match self.find(id) {
            Some(i) => {
                let (_, w) = self.entries.remove(i);
                proof {
                    let s = old(self).entries@;
                    assert(s[i as int] == (id, w));
                    assert forall|a: int| 0 <= a < self.entries@.len() implies #[trigger] self.entries@[a].0 != id by {
                        if a < i {
                            assert(self.entries@[a] == s[a]);
                        } else {
                            assert(self.entries@[a] == s[a + 1]);
                        }
                    }
                    assert forall|a: int, b: int| 0 <= a < self.entries@.len() && 0 <= b < self.entries@.len() && a != b
                        implies self.entries@[a].0 != self.entries@[b].0 by {
                        let a0 = if a < i { a } else { a + 1 };
                        let b0 = if b < i { b } else { b + 1 };
                        assert(self.entries@[a] == s[a0] && self.entries@[b] == s[b0]);
                    }
                }
                Some(w)
            },
            None => None,
        }
    }

    /// Empties the table, handing back every waiter in order of
    /// registration, so that none is left waiting once the connection closes.
    pub fn close(&mut self) -> (r: Vec<W>)
        requires
            old(self).wf(),
        ensures
            final(self).wf(),
            final(self)@ == Seq::<(u32, W)>::empty(),
            r@.len() == old(self)@.len(),
            forall|i: int| 0 <= i < r@.len() ==> r@[i] == (#[trigger] old(self)@[i]).1,
    {
        let ghost s = self.entries@;
        let mut entries = Vec::new();
        std::mem::swap(&mut entries, &mut self.entries);
        let mut out: Vec<W> = Vec::new();
        let mut rest = entries;
        while rest.len() > 0
            invariant
                s.len() == out@.len() + rest@.len(),
                rest@ == s.skip(out@.len() as int),
                forall|i: int| 0 <= i < out@.len() ==> out@[i] == (#[trigger] s[i]).1,
            decreases rest.len(),
        {
            let (_, w) = rest.remove(0);
            out.push(w);
            assert(rest@ =~= s.skip(out@.len() as int));
        }
        out
    }

    /// Hands a response to the waiter registered under its id, taking that
    /// waiter from the table. A response whose id is not a registered number
    /// is unexpected and leaves the table as it was.
    pub fn route(&mut self, response: Response) -> (r: Delivery<W>)
        requires
            old(self).wf(),
        ensures
            final(self).wf(),
            match response.id {
                Some(Id::Num(n)) => if has_id(old(self)@, n) {
                    r matches Delivery::Deliver(w, resp) && resp == response && exists|i: int|
                        0 <= i < old(self)@.len() && old(self)@[i] == (n, w) && final(self)@ == old(self)@.remove(i)
                } else {
                    r == Delivery::<W>::Unexpected(response) && final(self)@ == old(self)@
                },
                _ => r == Delivery::<W>::Unexpected(response) && final(self)@ == old(self)@,
            },
            response.id matches Some(Id::Num(n)) ==> !has_id(final(self)@, n),
    {
        let n = match &response.id {
            Some(Id::Num(n)) => *n,
            _ => {
                return Delivery::Unexpected(response);
            },
        };
        match self.take(n) {
            Some(w) => Delivery::Deliver(w, response),
            None => Delivery::Unexpected(response),
        }
    }
}

/// Once its waiter has been taken, an id is no longer in the table: a
/// response can reach a waiter only once.
pub proof fn lemma_taken_once<W>(s: Seq<(u32, W)>, i: int)
    requires
        unique_ids(s),
        0 <= i < s.len(),
    ensures
        !has_id(s.remove(i), s[i].0),
        unique_ids(s.remove(i)),
{
    let t = s.remove(i);
    assert forall|a: int| 0 <= a < t.len() implies #[trigger] t[a].0 != s[i].0 by {
        if a < i {
            assert(t[a] == s[a]);
        } else {
            assert(t[a] == s[a + 1]);
        }
    }
    assert forall|a: int, b: int| 0 <= a < t.len() && 0 <= b < t.len() && a != b implies t[a].0 != t[b].0 by {
        let a0 = if a < i { a } else { a + 1 };
        let b0 = if b < i { b } else { b + 1 };
        assert(t[a] == s[a0] && t[b] == s[b0]);
    }
}

} // verus!
