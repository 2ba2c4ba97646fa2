//! The message bus as the runner and gateway see it: a publish failure,
//! and an in-memory bus that keeps what was published.
use vstd::prelude::*;
use crate::json::Json;
use crate::text::owned;

verus! {

/// A failure to publish.
#[derive(Debug, PartialEq, Eq)]
pub enum BusError {
    /// Publishing failed; the text describes why.
    Publish(String),
}

/// A bus that keeps published messages in order until they are taken.
#[derive(Debug)]
pub struct InMemoryBusClient {
    published: Vec<(String, Json)>,
}

impl InMemoryBusClient {
    /// An empty bus.
    pub fn new() -> (r: Self)
        ensures
            r.pending().len() == 0,
    {
        InMemoryBusClient { published: Vec::new() }
    }

    /// The messages published and not yet taken, oldest first.
    pub closed spec fn pending(&self) -> Seq<(String, Json)> {
        self.published@
    }

    /// Publishes a value under a subject; it never fails.
    pub fn publish_value(&mut self, subject: &str, payload: Json) -> (r: Result<(), BusError>)
        ensures
            r is Ok,
            final(self).pending().len() == old(self).pending().len() + 1,
            final(self).pending().drop_last() == old(self).pending(),
            final(self).pending().last().0@ == subject@,
            final(self).pending().last().1 == payload,
    {
        self.published.push((owned(subject), payload));
        proof {
            assert(self.published@.drop_last() =~= old(self).published@);
        }
        Ok(())
    }

    /// Takes every message published so far, oldest first, leaving none.
    pub fn take_published(&mut self) -> (r: Vec<(String, Json)>)
        ensures
            r@ == old(self).pending(),
            final(self).pending().len() == 0,
    {
        let mut out: Vec<(String, Json)> = Vec::new();
        std::mem::swap(&mut out, &mut self.published);
        out
    }
}

} // verus!
