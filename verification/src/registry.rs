//! The client registry: which control-plane clients are connected, and
//! the fan-out plan for a broadcast.
//!
//! Each client is known here by its id alone; the writer half of its
//! connection lives with the surrounding process, keyed by that id. Ids
//! grow strictly and are never reused, even after a client leaves.

use vstd::prelude::*;
use crate::codec;
use crate::status::spec_label;
use crate::supervisor::StatusEvent;

verus! {

/// The connected clients, in registration order, and the last id handed
/// out.
#[derive(Debug)]
pub struct ClientRegistry {
    pub clients: Vec<u64>,
    pub last_client_id: u64,
}

/// Ids strictly increase along the registration order and never exceed
/// the last one handed out — so a fresh id collides neither with a
/// registered id nor with one already removed.
pub open spec fn registry_wf(r: ClientRegistry) -> bool {
    &&& forall|i: int, j: int|
        0 <= i < j < r.clients@.len() ==> r.clients@[i] < r.clients@[j]
    &&& forall|i: int| 0 <= i < r.clients@.len() ==> #[trigger] r.clients@[i] <= r.last_client_id
}

/// Index of the first occurrence of `id`, if any.
pub open spec fn find_id(s: Seq<u64>, id: u64) -> Option<int>
    decreases s.len(),
{
    if s.len() == 0 {
        None
    } else if s[0] == id {
        Some(0int)
    } else {
        match find_id(s.drop_first(), id) {
            Some(i) => Some(i + 1),
            None => None,
        }
    }
}

/// `find_id` returns the least index holding `id`, or `None` when no
/// element does.
pub proof fn lemma_find_id(s: Seq<u64>, id: u64)
    ensures
        find_id(s, id) is None ==> forall|i: int| 0 <= i < s.len() ==> s[i] != id,
        find_id(s, id) matches Some(i) ==> 0 <= i < s.len() && s[i] == id && forall|k: int|
            0 <= k < i ==> s[k] != id,
    decreases s.len(),
{
    if s.len() > 0 && s[0] != id {
        let t = s.drop_first();
        lemma_find_id(t, id);
        if find_id(t, id) is None {
            assert forall|i: int| 0 <= i < s.len() implies s[i] != id by {
                if i > 0 {
                    assert(t[i - 1] == s[i]);
                }
            }
        } else {
            let j = find_id(t, id)->Some_0;
            assert(s[j + 1] == t[j]);
            assert forall|k: int| 0 <= k < j + 1 implies s[k] != id by {
                if k > 0 {
                    assert(t[k - 1] == s[k]);
                }
            }
        }
    }
}

impl ClientRegistry {
    /// A registry with no clients; the first id handed out will be 1.
    pub fn new() -> (r: ClientRegistry)
        ensures
            r.clients@.len() == 0,
            r.last_client_id == 0,
            registry_wf(r),
    {
        ClientRegistry { clients: Vec::new(), last_client_id: 0 }
    }

    /// Registers a new client under the next id — one more than the last
    /// ever handed out, so fresh against every id that ever existed.
    pub fn add_client(&mut self) -> (id: u64)
        requires
            registry_wf(*old(self)),
            old(self).last_client_id < u64::MAX,
        ensures
            registry_wf(*final(self)),
            id == old(self).last_client_id + 1,
            final(self).last_client_id == id,
            final(self).clients@ == old(self).clients@.push(id),
            forall|k: int| 0 <= k < old(self).clients@.len() ==> old(self).clients@[k] < id,
    {
        let id = self.last_client_id + 1;
        self.clients.push(id);
        self.last_client_id = id;
        id
    }

    /// Unregisters `id`. Removing an absent id is a no-op, not an error.
    pub fn remove_client(&mut self, id: u64)
        requires
            registry_wf(*old(self)),
        ensures
            registry_wf(*final(self)),
            final(self).last_client_id == old(self).last_client_id,
            match find_id(old(self).clients@, id) {
                Some(i) => final(self).clients@ == old(self).clients@.remove(i),
                None => *final(self) == *old(self),
            },
    {
        let ghost s = self.clients@;
        let n = self.clients.len();
        let mut i: usize = 0;
        while i < n
            invariant
                i <= n,
                n == s.len(),
                s == self.clients@,
                *self == *old(self),
                registry_wf(*self),
                forall|k: int| 0 <= k < i ==> s[k] != id,
            decreases n - i,
        {
            if self.clients[i] == id {
                proof {
                    lemma_find_id(s, id);
                    if find_id(s, id) is None {
                        assert(false);
                    }
                    let j = find_id(s, id)->Some_0;
                    assert(j <= i);
                    assert(j == i);
                }
                self.clients.remove(i);
                proof {
                    let s2 = self.clients@;
                    s.remove_ensures(i as int);
                    assert(s2 == s.remove(i as int));
                    assert forall|a: int, b: int| 0 <= a < b < s2.len() implies s2[a] < s2[b] by {
                        if b < i {
                            assert(s2[a] == s[a] && s2[b] == s[b]);
                        } else if a < i {
                            assert(s2[a] == s[a] && s2[b] == s[b + 1]);
                        } else {
                            assert(s2[a] == s[a + 1] && s2[b] == s[b + 1]);
                        }
                    }
                    assert forall|a: int| 0 <= a < s2.len() implies #[trigger] s2[a]
                        <= self.last_client_id by {
                        if a < i {
                            assert(s2[a] == s[a]);
                        } else {
                            assert(s2[a] == s[a + 1]);
                        }
                    }
                }
                return ;
            }
            i = i + 1;
        }
        proof {
            lemma_find_id(s, id);
            match find_id(s, id) {
                Some(j) => {
                    assert(s[j] == id);
                    assert(false);
                },
                None => {},
            }
        }
    }

    /// The fan-out plan for one broadcast: every currently registered
    /// client, each paired with the same encoded event frame — byte for
    /// byte identical across clients. The surrounding process writes each
    /// frame independently, so one client's failed write cannot touch
    /// delivery to the others.
    pub fn broadcast_frames(&self, ev: &StatusEvent) -> (r: Vec<(u64, Vec<u8>)>)
        requires
            vstd::utf8::encode_utf8(ev.guid@).len() + vstd::utf8::encode_utf8(ev.name@).len()
                + vstd::utf8::encode_utf8(spec_label(ev.status)).len() + 2 <= usize::MAX,
        ensures
            r@.len() == self.clients@.len(),
            forall|i: int|
                0 <= i < r@.len() ==> (#[trigger] r@[i]).0 == self.clients@[i] && r@[i].1@
                    == codec::event_frame(
                    vstd::utf8::encode_utf8(ev.guid@),
                    vstd::utf8::encode_utf8(ev.name@),
                    vstd::utf8::encode_utf8(spec_label(ev.status)),
                ),
            forall|i: int, j: int|
                0 <= i < r@.len() && 0 <= j < r@.len() ==> (#[trigger] r@[i]).1@ == (
                #[trigger] r@[j]).1@,
    {
        let ghost frame = codec::event_frame(
            vstd::utf8::encode_utf8(ev.guid@),
            vstd::utf8::encode_utf8(ev.name@),
            vstd::utf8::encode_utf8(spec_label(ev.status)),
        );
        let n = self.clients.len();
        let mut r: Vec<(u64, Vec<u8>)> = Vec::new();
        let mut i: usize = 0;
        while i < n
            invariant
                i <= n,
                n == self.clients@.len(),
                vstd::utf8::encode_utf8(ev.guid@).len() + vstd::utf8::encode_utf8(ev.name@).len()
                    + vstd::utf8::encode_utf8(spec_label(ev.status)).len() + 2 <= usize::MAX,
                frame == codec::event_frame(
                    vstd::utf8::encode_utf8(ev.guid@),
                    vstd::utf8::encode_utf8(ev.name@),
                    vstd::utf8::encode_utf8(spec_label(ev.status)),
                ),
                r@.len() == i,
                forall|k: int|
                    0 <= k < i ==> (#[trigger] r@[k]).0 == self.clients@[k] && r@[k].1@ == frame,
            decreases n - i,
        {
            let bytes = ev.encode();
            r.push((self.clients[i], bytes));
            i = i + 1;
        }
        r
    }
}

} // verus!
