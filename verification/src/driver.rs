//! The client driver's decisions: an exchange plan of payload sizes,
//! stepped through in order, the deterministic payloads it sends, and
//! the check that each response is what the responder owed. The driver
//! task around it writes and reads the frames and records the clock.

use vstd::prelude::*;

verus! {

use crate::server::ResponseMode;
use crate::server::expected_response;

/// The client's exchange plan: the payload sizes to send, in order, and
/// how far it has got.
pub struct Driver {
    pub plan: Vec<u64>,
    pub next: usize,
}

impl Driver {
    /// A driver at the start of its plan. The plan is caller-supplied:
    /// any sequence of payload sizes, with repetitions, in any order.
    pub fn new(plan: Vec<u64>) -> (d: Driver)
        ensures
            d.plan@ == plan@,
            d.next == 0,
    {
        Driver { plan, next: 0 }
    }

    /// The next payload size to exchange, stepping through the plan in
    /// order; nothing once the plan is done.
    pub fn next_size(&mut self) -> (r: Option<u64>)
        ensures
            final(self).plan@ == old(self).plan@,
            old(self).next < old(self).plan@.len() ==> {
                &&& r == Some(old(self).plan@[old(self).next as int])
                &&& final(self).next == old(self).next + 1
            },
            old(self).next >= old(self).plan@.len() ==> {
                &&& r is None
                &&& final(self).next == old(self).next
            },
    {
        if self.next < self.plan.len() {
            let size: u64 = self.plan[self.next];
            self.next = self.next + 1;
            Some(size)
        } else {
            None
        }
    }
}

/// A deterministic payload of `size` bytes, every byte `fill`.
pub fn make_payload(size: usize, fill: u8) -> (p: Vec<u8>)
    ensures
        p@.len() == size,
        forall|i: int| 0 <= i < size ==> p@[i] == fill,
{
    let mut out: Vec<u8> = Vec::new();
    let mut i: usize = 0;
    while i < size
        invariant
            i <= size,
            out@.len() == i,
            forall|j: int| 0 <= j < i ==> out@[j] == fill,
        decreases size - i,
    {
        out.push(fill);
        i = i + 1;
    }
    out
}

/// Whether two byte strings hold the same bytes.
pub fn bytes_equal(a: &[u8], b: &[u8]) -> (r: bool)
    ensures
        r == (a@ == b@),
{
    if a.len() != b.len() {
        return false;
    }
    let mut i: usize = 0;
    while i < a.len()
        invariant
            a@.len() == b@.len(),
            i <= a@.len(),
            forall|j: int| 0 <= j < i ==> a@[j] == b@[j],
        decreases a@.len() - i,
    {
        if a[i] != b[i] {
            return false;
        }
        i = i + 1;
    }
    proof {
        assert(a@ =~= b@);
    }
    true
}

/// Whether `response` is exactly the payload a responder in `mode` owed
/// for `request`.
pub fn check_response(mode: ResponseMode, request: &[u8], response: &[u8]) -> (ok: bool)
    ensures
        ok == (response@ == expected_response(mode, request@)),
{
    match mode {
        ResponseMode::Echo => bytes_equal(request, response),
        ResponseMode::FixedAck => {
            let ack = crate::server::ack_bytes();
            bytes_equal(response, ack.as_slice())
        },
    }
}

} // verus!
