//! Session identity and the tables of outstanding requests.
use std::collections::HashMap;

use vstd::prelude::*;

use crate::crypto::random_uuid;
use crate::events::current_timestamp_ms;

verus! {

broadcast use vstd::std_specs::hash::group_hash_axioms;

/// The identity one run stamps onto every record.
pub struct Session {
    pub session_id: Vec<u8>,
    pub trace_id: Vec<u8>,
}

/// Outstanding requests keyed by request id, each with a span id and
/// its start time in milliseconds.
pub struct SessionTracker {
    pub pending: HashMap<u64, (u64, Vec<u8>)>,
}

impl SessionTracker {
    pub fn new() -> (r: SessionTracker)
        ensures
            r.pending@ == Map::<u64, (u64, Vec<u8>)>::empty(),
    {
        SessionTracker { pending: HashMap::new() }
    }

    /// Opens a span for a request: draws a span id, records it with
    /// the current time, and returns it.
    pub fn start_span(&mut self, request_id: u64) -> (r: Vec<u8>)
        ensures
            r@.len() == 36,
            exists|p: (u64, Vec<u8>)|
                p.1@ == r@ && final(self).pending@ == #[trigger] old(self).pending@.insert(
                    request_id,
                    p,
                ),
    {
        let span_id = random_uuid();
        let timestamp = current_timestamp_ms();
        let span_copy = crate::order::copy_bytes(&span_id);
        let ghost p = (timestamp, span_copy);
        self.pending.insert(request_id, (timestamp, span_copy));
        proof {
            assert(p.1@ == span_id@);
            assert(self.pending@ == old(self).pending@.insert(request_id, p));
        }
        span_id
    }

    /// Closes a span: removes and returns the entry for the request,
    /// if one is open.
    pub fn end_span(&mut self, request_id: u64) -> (r: Option<(u64, Vec<u8>)>)
        ensures
            final(self).pending@ == old(self).pending@.remove(request_id),
            (r is Some) == old(self).pending@.contains_key(request_id),
            r matches Some(p) ==> old(self).pending@[request_id].0 == p.0 && old(
                self,
            ).pending@[request_id].1@ == p.1@,
    {
        self.pending.remove(&request_id)
    }
}

/// The new table keeps exactly the old entries younger than the
/// cutoff.
pub open spec fn kept_by(old_map: Map<u64, u64>, new_map: Map<u64, u64>, cut: u64) -> bool {
    forall|k: u64|
        old_map.contains_key(k) ==> (#[trigger] new_map.contains_key(k) <==> old_map[k] > cut)
}

/// Outstanding requests keyed by request id, with their start times;
/// used to compute response latency.
pub struct SessionState {
    pending_requests: HashMap<u64, u64>,
    order: Vec<u64>,
}

impl SessionState {
    /// The key list mirrors the table: same keys, no duplicates.
    pub closed spec fn wf(self) -> bool {
        &&& (forall|i: int, j: int|
            0 <= i < j < self.order@.len() ==> self.order@[i] != self.order@[j])
        &&& (forall|k: u64| self.pending_requests@.contains_key(k) <==> self.order@.contains(k))
    }

    /// The table of outstanding requests.
    pub closed spec fn view_map(self) -> Map<u64, u64> {
        self.pending_requests@
    }

    pub fn new() -> (r: SessionState)
        ensures
            r.wf(),
            r.view_map() == Map::<u64, u64>::empty(),
    {
        let r = SessionState { pending_requests: HashMap::new(), order: Vec::new() };
        proof {
            assert forall|k: u64| r.pending_requests@.contains_key(k) <==> r.order@.contains(
                k,
            ) by {
                if r.order@.contains(k) {
                    let i = choose|i: int| 0 <= i < r.order@.len() && r.order@[i] == k;
                }
            }
        }
        r
    }

    /// Notes that a request went out now.
    pub fn record_request(&mut self, request_id: u64)
        requires
            old(self).wf(),
        ensures
            final(self).wf(),
            exists|t: u64|
                final(self).view_map() == #[trigger] old(self).view_map().insert(request_id, t),
    {
        let now = current_timestamp_ms();
        let had = self.pending_requests.insert(request_id, now);
        proof {
            assert(self.pending_requests@ == old(self).view_map().insert(request_id, now));
        }
        match had {
            Some(_) => {
                proof {
                    assert(old(self).order@.contains(request_id));
                    assert forall|k: u64|
                        self.pending_requests@.contains_key(k) <==> self.order@.contains(k) by {
                        if k != request_id {
                            assert(self.pending_requests@.contains_key(k) == old(
                                self,
                            ).pending_requests@.contains_key(k));
                        }
                    }
                }
            },
            None => {
                proof {
                    if old(self).order@.contains(request_id) {
                        assert(old(self).pending_requests@.contains_key(request_id));
                    }
                }
                self.order.push(request_id);
                proof {
                    assert forall|i: int, j: int|
                        0 <= i < j < self.order@.len() implies self.order@[i]
                        != self.order@[j] by {
                        if j == self.order@.len() - 1 {
                            assert(self.order@[i] == old(self).order@[i]);
                            if old(self).order@.contains(request_id) {
                            } else {
                                assert(self.order@[j] == request_id);
                                if self.order@[i] == request_id {
                                    assert(old(self).order@.contains(request_id));
                                }
                            }
                        }
                    }
                    assert forall|k: u64|
                        self.pending_requests@.contains_key(k) <==> self.order@.contains(k) by {
                        if k == request_id {
                            assert(self.order@[self.order@.len() - 1] == request_id);
                        } else {
                            assert(self.pending_requests@.contains_key(k) == old(
                                self,
                            ).pending_requests@.contains_key(k));
                            if old(self).order@.contains(k) {
                                let i = choose|i: int|
                                    0 <= i < old(self).order@.len() && old(self).order@[i] == k;
                                assert(self.order@[i] == k);
                            }
                            if self.order@.contains(k) {
                                let i = choose|i: int|
                                    0 <= i < self.order@.len() && self.order@[i] == k;
                                assert(i < self.order@.len() - 1);
                                assert(old(self).order@[i] == k);
                            }
                        }
                    }
                }
            },
        }
    }

    /// Called when a response is seen; returns the latency in
    /// milliseconds if the request is known, clamped at zero if the
    /// wall clock moved backwards.
    pub fn complete_request(&mut self, request_id: u64) -> (r: Option<u64>)
        requires
            old(self).wf(),
        ensures
            final(self).wf(),
            final(self).view_map() == old(self).view_map().remove(request_id),
            (r is Some) == old(self).view_map().contains_key(request_id),
    {
        let start = match self.pending_requests.remove(&request_id) {
            Some(t) => t,
            None => {
                proof {
                    assert(self.pending_requests@ =~= old(self).view_map().remove(request_id));
                    assert forall|k: u64|
                        self.pending_requests@.contains_key(k) <==> self.order@.contains(k) by {
                        if k != request_id {
                            assert(self.pending_requests@.contains_key(k) == old(
                                self,
                            ).pending_requests@.contains_key(k));
                        }
                    }
                }
                return None;
            },
        };
        // the key is in the order list; find and drop it
        let ghost pre = self.order@;
        proof {
            assert(old(self).order@.contains(request_id));
            let x = choose|x: int| 0 <= x < pre.len() && pre[x] == request_id;
        }
        let n = self.order.len();
        let mut idx: usize = 0;
        loop
            invariant
                self.order@ == pre,
                n == pre.len(),
                idx < n,
                exists|x: int| idx <= x < pre.len() && #[trigger] pre[x] == request_id,
                forall|j: int| 0 <= j < idx ==> pre[j] != request_id,
            ensures
                idx < n && pre[idx as int] == request_id,
                forall|j: int| 0 <= j < idx ==> pre[j] != request_id,
                self.order@ == pre,
            decreases n - idx,
        {
            if self.order[idx] == request_id {
                break;
            }
            proof {
                let x = choose|x: int| idx <= x < pre.len() && #[trigger] pre[x] == request_id;
                assert(x > idx);
            }
            idx = idx + 1;
        }
        self.order.remove(idx);
        proof {
            assert(self.order@ =~= pre.remove(idx as int));
            assert forall|j: int| 0 <= j < pre.len() && j != idx implies pre[j]
                != request_id by {
                if j > idx {
                    assert(pre[idx as int] == request_id);
                }
            }
            assert forall|a: int, b: int|
                0 <= a < b < self.order@.len() implies self.order@[a] != self.order@[b] by {
                let pa = if a < idx {
                    a
                } else {
                    a + 1
                };
                let pb = if b < idx {
                    b
                } else {
                    b + 1
                };
                assert(self.order@[a] == pre[pa]);
                assert(self.order@[b] == pre[pb]);
            }
            assert forall|k: u64|
                self.pending_requests@.contains_key(k) <==> self.order@.contains(k) by {
                if k == request_id {
                    if self.order@.contains(k) {
                        let x = choose|x: int| 0 <= x < self.order@.len() && self.order@[x] == k;
                        if x < idx {
                            assert(pre[x] == k);
                        } else {
                            assert(pre[x + 1] == k);
                        }
                        assert(false);
                    }
                } else {
                    assert(self.pending_requests@.contains_key(k) == old(
                        self,
                    ).pending_requests@.contains_key(k));
                    if pre.contains(k) {
                        let x = choose|x: int| 0 <= x < pre.len() && pre[x] == k;
                        if x < idx {
                            assert(self.order@[x] == k);
                        } else {
                            assert(x != idx);
                            assert(self.order@[x - 1] == k);
                        }
                    }
                    if self.order@.contains(k) {
                        let x = choose|x: int| 0 <= x < self.order@.len() && self.order@[x] == k;
                        if x < idx {
                            assert(pre[x] == k);
                        } else {
                            assert(pre[x + 1] == k);
                        }
                    }
                }
            }
            assert(self.pending_requests@ =~= old(self).view_map().remove(request_id));
        }
        let now = current_timestamp_ms();
        let latency = if now >= start {
            now - start
        } else {
            0
        };
        Some(latency)
    }

    /// Drops requests older than `max_age_seconds`, so the table does
    /// not grow without bound: what stays is a sub-table of what was
    /// there, filtered by a single age cutoff.
    pub fn clear_old_requests(&mut self, max_age_seconds: u64)
        requires
            old(self).wf(),
        ensures
            final(self).wf(),
            forall|k: u64|
                final(self).view_map().contains_key(k) ==> old(self).view_map().contains_key(k)
                    && final(self).view_map()[k] == #[trigger] old(self).view_map()[k],
            exists|cut: u64| #[trigger] kept_by(old(self).view_map(), final(self).view_map(), cut),
    {
        let now = current_timestamp_ms();
        let age_ms = if max_age_seconds > u64::MAX / 1000 {
            u64::MAX
        } else {
            max_age_seconds * 1000
        };
        let cutoff = if now >= age_ms {
            now - age_ms
        } else {
            0
        };
        let mut kept_map: HashMap<u64, u64> = HashMap::new();
        let mut kept_order: Vec<u64> = Vec::new();
        let mut i: usize = 0;
        while i < self.order.len()
            invariant
                old(self).wf(),
                self.pending_requests@ == old(self).pending_requests@,
                self.order@ == old(self).order@,
                i <= self.order@.len(),
                kept_order@.len() <= i,
                forall|a: int, b: int|
                    0 <= a < b < kept_order@.len() ==> kept_order@[a] != kept_order@[b],
                forall|a: int|
                    0 <= a < kept_order@.len() ==> old(self).order@.contains(
                        #[trigger] kept_order@[a],
                    ),
                forall|k: u64| kept_map@.contains_key(k) <==> kept_order@.contains(k),
                forall|k: u64|
                    #[trigger] kept_map@.contains_key(k) ==> old(
                        self,
                    ).pending_requests@.contains_key(k) && kept_map@[k] == old(
                        self,
                    ).pending_requests@[k] && kept_map@[k] > cutoff,
                forall|j: int|
                    0 <= j < i ==> {
                        let k = #[trigger] self.order@[j];
                        old(self).pending_requests@.contains_key(k) && old(
                            self,
                        ).pending_requests@[k] > cutoff ==> kept_map@.contains_key(k)
                    },
            decreases self.order@.len() - i,
        {
            let k = self.order[i];
            proof {
                assert(self.order@.contains(k));
            }
            match self.pending_requests.get(&k) {
                Some(t) => {
                    if *t > cutoff {
                        let ghost km0 = kept_map@;
                        let ghost ko0 = kept_order@;
                        let had = kept_map.insert(k, *t);
                        match had {
                            Some(_) => {
                                proof {
                                    assert(ko0.contains(k));
                                    assert(kept_map@ =~= km0);
                                }
                            },
                            None => {
                                kept_order.push(k);
                                proof {
                                    assert forall|a: int, b: int|
                                        0 <= a < b < kept_order@.len() implies kept_order@[a]
                                        != kept_order@[b] by {
                                        if b == kept_order@.len() - 1 {
                                            if kept_order@[a] == k {
                                                assert(ko0.contains(k));
                                            }
                                        }
                                    }
                                    assert forall|k2: u64|
                                        kept_map@.contains_key(k2) <==> kept_order@.contains(
                                        k2) by {
                                        if k2 == k {
                                            assert(kept_order@[kept_order@.len() - 1] == k);
                                        } else {
                                            assert(kept_map@.contains_key(k2) == km0.contains_key(
                                                k2));
                                            if ko0.contains(k2) {
                                                let x = choose|x: int|
                                                    0 <= x < ko0.len() && ko0[x] == k2;
                                                assert(kept_order@[x] == k2);
                                            }
                                            if kept_order@.contains(k2) {
                                                let x = choose|x: int|
                                                    0 <= x < kept_order@.len() && kept_order@[x]
                                                        == k2;
                                                assert(x < kept_order@.len() - 1);
                                                assert(ko0[x] == k2);
                                            }
                                        }
                                    }
                                }
                            },
                        }
                    }
                },
                None => {},
            }
            i = i + 1;
        }
        self.pending_requests = kept_map;
        self.order = kept_order;
        proof {
            assert forall|k: u64|
                old(self).view_map().contains_key(k) implies (#[trigger] self.pending_requests@.contains_key(
                k) <==> old(self).view_map()[k] > cutoff) by {
                if old(self).view_map().contains_key(k) {
                    assert(old(self).order@.contains(k));
                    let x = choose|x: int|
                        0 <= x < old(self).order@.len() && old(self).order@[x] == k;
                }
            }
            assert(kept_by(old(self).view_map(), self.view_map(), cutoff));
        }
    }
}

impl Default for SessionState {
    fn default() -> (r: SessionState)
        ensures
            r.wf(),
            r.view_map() == Map::<u64, u64>::empty(),
    {
        SessionState::new()
    }
}

} // verus!
