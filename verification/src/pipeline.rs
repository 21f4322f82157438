use vstd::prelude::*;
use vstd::pervasive::VecAdditionalExecFns;
use crate::decryption::{spec_cbc_decrypt, spec_pkcs7_unpad, Cipher};
use crate::errors::{DecryptError, PipelineError};

verus! {

pub open spec fn slots_view(s: Seq<Option<Vec<u8>>>) -> Seq<Option<Seq<u8>>> {
    s.map_values(
        |o: Option<Vec<u8>>| match o {
            Some(v) => Some(v@),
            None => None,
        },
    )
}

/// The staged plaintexts in slot order, each slot contributing its
/// content (an unfilled slot contributes nothing).
pub open spec fn spec_staged_concat(slots: Seq<Option<Seq<u8>>>, i: int) -> Seq<u8>
    decreases slots.len() - i,
{
    if i < 0 || i >= slots.len() {
        Seq::empty()
    } else {
        (match slots[i] {
            Some(v) => v,
            None => Seq::empty(),
        }) + spec_staged_concat(slots, i + 1)
    }
}

/// The held-back merge state of one download job: one slot per segment,
/// filled by workers as fetches complete in any order, drained strictly
/// in segment order.
pub struct SegmentPipeline {
    cipher: Cipher,
    slots: Vec<Option<Vec<u8>>>,
    cursor: usize,
    failed: bool,
}

impl SegmentPipeline {
    pub closed spec fn spec_slots(&self) -> Seq<Option<Seq<u8>>> {
        slots_view(self.slots@)
    }

    pub closed spec fn spec_cursor(&self) -> int {
        self.cursor as int
    }

    pub closed spec fn spec_failed(&self) -> bool {
        self.failed
    }

    pub closed spec fn spec_cipher(&self) -> (Seq<u8>, Seq<u8>) {
        self.cipher@
    }

    pub open spec fn num_segments(&self) -> int {
        self.spec_slots().len() as int
    }

    pub open spec fn wf(&self) -> bool {
        &&& self.spec_cipher().0.len() == 16
        &&& self.spec_cipher().1.len() == 16
        &&& 0 <= self.spec_cursor() <= self.num_segments()
    }

    /// What decrypting one fetched segment body yields under this job's
    /// cipher, if it decrypts at all.
    pub open spec fn spec_plain(&self, body: Seq<u8>) -> Option<Seq<u8>> {
        if body.len() % 16 == 0 {
            spec_pkcs7_unpad(spec_cbc_decrypt(self.spec_cipher().0, self.spec_cipher().1, body))
        } else {
            None
        }
    }

    /// Sets up the merge state for a job of `n` segments.
    #[verifier::loop_isolation(false)]
    pub fn new(cipher: Cipher, n: usize) -> (r: SegmentPipeline)
        requires
            cipher.well_formed(),
        ensures
            r.wf(),
            r.spec_cipher() == cipher@,
            r.spec_slots() == Seq::new(n as nat, |i: int| None::<Seq<u8>>),
            r.spec_cursor() == 0,
            !r.spec_failed(),
    {
        let mut slots: Vec<Option<Vec<u8>>> = Vec::new();
        let mut i: usize = 0;
        while i < n
            invariant
                i <= n,
                slots@.len() == i,
                forall|k: int| 0 <= k < i ==> slots@[k] is None,
            decreases n - i,
        {
            slots.push(None);
            i = i + 1;
        }
        proof {
            assert(slots_view(slots@) =~= Seq::new(n as nat, |k: int| None::<Seq<u8>>));
        }
        SegmentPipeline { cipher, slots, cursor: 0, failed: false }
    }

    /// Whether one more fetch may start: the job has not failed, fewer
    /// than `concurrency` segments are in flight, and segments remain.
    pub fn admit_more(&self, in_flight: usize, concurrency: usize, next_index: usize) -> (r: bool)
        ensures
            r == (!self.spec_failed() && in_flight < concurrency && next_index
                < self.num_segments()),
    {
        !self.failed && in_flight < concurrency && next_index < self.slots.len()
    }

    /// Decrypts one fetched segment body and stages the plaintext in its
    /// slot; a body that does not decrypt fails the whole job.
    pub fn deliver(&mut self, index: usize, body: Vec<u8>) -> (r: Result<(), PipelineError>)
        requires
            old(self).wf(),
            index < old(self).num_segments(),
        ensures
            final(self).wf(),
            final(self).spec_cipher() == old(self).spec_cipher(),
            final(self).spec_cursor() == old(self).spec_cursor(),
            final(self).num_segments() == old(self).num_segments(),
            match (r, old(self).spec_plain(body@)) {
                (Ok(u), Some(pt)) => {
                    &&& final(self).spec_slots() == old(self).spec_slots().update(
                        index as int,
                        Some(pt),
                    )
                    &&& final(self).spec_failed() == old(self).spec_failed()
                },
                (Err(e), None) => {
                    &&& final(self).spec_failed()
                    &&& final(self).spec_slots() == old(self).spec_slots()
                    &&& e == (PipelineError::Decrypt {
                        segment: index,
                        cause: if body@.len() % 16 != 0 {
                            DecryptError::InvalidCiphertextLength
                        } else {
                            DecryptError::InvalidPadding
                        },
                    })
                },
                _ => false,
            },
    {
        match self.cipher.decrypt(&body) {
            Ok(pt) => {
                self.slots.set(index, Some(pt));
                proof {
                    assert(slots_view(self.slots@) =~= old(self).spec_slots().update(
                        index as int,
                        Some(spec_pkcs7_unpad(
                            spec_cbc_decrypt(self.cipher@.0, self.cipher@.1, body@),
                        )->0),
                    ));
                }
                Ok(())
            },
            Err(e) => {
                self.failed = true;
                Err(PipelineError::Decrypt { segment: index, cause: e })
            },
        }
    }

    /// Records that the fetch of one segment failed, which is fatal for
    /// the job.
    pub fn report_fetch_failure(&mut self, index: usize) -> (r: PipelineError)
        ensures
            final(self).spec_failed(),
            final(self).spec_slots() == old(self).spec_slots(),
            final(self).spec_cursor() == old(self).spec_cursor(),
            final(self).spec_cipher() == old(self).spec_cipher(),
            r == (PipelineError::Fetch { segment: index }),
    {
        self.failed = true;
        PipelineError::Fetch { segment: index }
    }

    /// Hands out the next segment in order, if it has been staged: the
    /// drain cursor never skips ahead, so segments leave in manifest
    /// order no matter when they arrived.
    pub fn drain_next(&mut self) -> (r: Option<Vec<u8>>)
        requires
            old(self).wf(),
        ensures
            final(self).wf(),
            final(self).spec_cipher() == old(self).spec_cipher(),
            final(self).spec_failed() == old(self).spec_failed(),
            final(self).num_segments() == old(self).num_segments(),
            if old(self).spec_cursor() < old(self).num_segments() && old(self).spec_slots()[old(
                self,
            ).spec_cursor()] is Some {
                &&& r is Some
                &&& r->0@ == old(self).spec_slots()[old(self).spec_cursor()]->0
                &&& final(self).spec_cursor() == old(self).spec_cursor() + 1
                &&& final(self).spec_slots() == old(self).spec_slots().update(
                    old(self).spec_cursor(),
                    None::<Seq<u8>>,
                )
            } else {
                &&& r is None
                &&& final(self).spec_cursor() == old(self).spec_cursor()
                &&& final(self).spec_slots() == old(self).spec_slots()
            },
    {
        if self.cursor >= self.slots.len() {
            return None;
        }
        let filled = self.slots[self.cursor].is_some();
        if !filled {
            return None;
        }
        let mut taken: Option<Vec<u8>> = None;
        self.slots.set_and_swap(self.cursor, &mut taken);
        proof {
            assert(slots_view(self.slots@) =~= old(self).spec_slots().update(
                old(self).spec_cursor(),
                None::<Seq<u8>>,
            ));
        }
        self.cursor = self.cursor + 1;
        taken
    }

    /// Drains the whole job in segment order: `Some` exactly when every
    /// segment has been staged, and then the output is the concatenation
    /// of the staged plaintexts in slot order.
    #[verifier::loop_isolation(false)]
    pub fn drain_all(&mut self) -> (r: Option<Vec<u8>>)
        requires
            old(self).wf(),
            old(self).spec_cursor() == 0,
        ensures
            final(self).wf(),
            final(self).spec_cipher() == old(self).spec_cipher(),
            final(self).spec_failed() == old(self).spec_failed(),
            final(self).num_segments() == old(self).num_segments(),
            (r is Some) == (forall|k: int|
                0 <= k < old(self).num_segments() ==> old(self).spec_slots()[k] is Some),
            r is Some ==> r->0@ == spec_staged_concat(old(self).spec_slots(), 0),
            r is None ==> *final(self) == *old(self),
    {
        // every slot must be staged before anything is written
        let n = self.slots.len();
        let mut i: usize = 0;
        while i < n
            invariant
                i <= n,
                self == old(self),
                forall|k: int| 0 <= k < i ==> old(self).spec_slots()[k] is Some,
            decreases n - i,
        {
            if self.slots[i].is_none() {
                proof {
                    assert(old(self).spec_slots()[i as int] is None);
                }
                return None;
            }
            i = i + 1;
        }
        let mut out: Vec<u8> = Vec::new();
        let mut j: usize = 0;
        proof {
            assert(out@ + spec_staged_concat(old(self).spec_slots(), 0) =~= spec_staged_concat(
                old(self).spec_slots(),
                0,
            ));
        }
        while j < n
            invariant
                j <= n,
                self.spec_cursor() == j,
                self.spec_failed() == old(self).spec_failed(),
                self.spec_cipher() == old(self).spec_cipher(),
                self.wf(),
                self.spec_slots().len() == n,
                forall|k: int|
                    j <= k < n ==> self.spec_slots()[k] == old(self).spec_slots()[k],
                forall|k: int| j <= k < n ==> old(self).spec_slots()[k] is Some,
                out@ + spec_staged_concat(old(self).spec_slots(), j as int) == spec_staged_concat(
                    old(self).spec_slots(),
                    0,
                ),
            decreases n - j,
    {
            let ghost pre = out@;
            match self.drain_next() {
                Some(mut piece) => {
                    out.append(&mut piece);
                    proof {
                        assert(out@ =~= pre + old(self).spec_slots()[j as int]->0);
                        assert(pre + (old(self).spec_slots()[j as int]->0 + spec_staged_concat(
                            old(self).spec_slots(),
                            j + 1,
                        )) =~= out@ + spec_staged_concat(old(self).spec_slots(), j + 1));
                    }
                },
                None => {
                    proof {
                        assert(false);
                    }
                },
            }
            j = j + 1;
        }
        proof {
            assert(spec_staged_concat(old(self).spec_slots(), n as int) =~= Seq::<u8>::empty());
            assert(out@ + Seq::<u8>::empty() =~= out@);
        }
        Some(out)
    }
}

// ---------------------------------------------------------------------------
// Completion order does not matter
// ---------------------------------------------------------------------------

/// The slot array after a sequence of deliveries, each writing one
/// segment's plaintext into its own slot.
pub open spec fn spec_apply_deliveries(
    slots: Seq<Option<Seq<u8>>>,
    ds: Seq<(int, Seq<u8>)>,
    k: int,
) -> Seq<Option<Seq<u8>>>
    decreases ds.len() - k,
{
    if k < 0 || k >= ds.len() {
        slots
    } else {
        spec_apply_deliveries(slots.update(ds[k].0, Some(ds[k].1)), ds, k + 1)
    }
}

/// Whether some delivery at or after position `k` writes slot `q`.
pub open spec fn spec_delivered_from(ds: Seq<(int, Seq<u8>)>, k: int, q: int) -> bool {
    exists|m: int| k <= m < ds.len() && #[trigger] ds[m].0 == q
}

proof fn lemma_apply_deliveries_pointwise(
    slots: Seq<Option<Seq<u8>>>,
    contents: Seq<Seq<u8>>,
    ds: Seq<(int, Seq<u8>)>,
    k: int,
    q: int,
)
    requires
        0 <= k,
        0 <= q < slots.len(),
        forall|m: int|
            0 <= m < ds.len() ==> 0 <= #[trigger] ds[m].0 < slots.len() && ds[m].1 == contents[ds[m].0],
    ensures
        spec_apply_deliveries(slots, ds, k)[q] == if spec_delivered_from(ds, k, q) {
            Some(contents[q])
        } else {
            slots[q]
        },
    decreases ds.len() - k,
{
    if k < 0 || k >= ds.len() {
    } else {
        let slots2 = slots.update(ds[k].0, Some(ds[k].1));
        lemma_apply_deliveries_pointwise(slots2, contents, ds, k + 1, q);
        if ds[k].0 == q {
            assert(slots2[q] == Some(contents[q]));
            assert(spec_delivered_from(ds, k, q));
        } else {
            assert(slots2[q] == slots[q]);
            if spec_delivered_from(ds, k, q) {
                let m = choose|m: int| k <= m < ds.len() && #[trigger] ds[m].0 == q;
                assert(m != k);
                assert(spec_delivered_from(ds, k + 1, q));
            }
            if spec_delivered_from(ds, k + 1, q) {
                assert(spec_delivered_from(ds, k, q));
            }
        }
    }
}

/// Segment completion order is irrelevant: once every segment has been
/// delivered once, each slot holds its own segment's plaintext, whatever
/// order the deliveries came in. Together with the in-order drain this
/// pins the merged output to the manifest order.
pub proof fn lemma_order_irrelevant(n: int, contents: Seq<Seq<u8>>, ds: Seq<(int, Seq<u8>)>)
    requires
        n >= 0,
        contents.len() == n,
        forall|m: int| 0 <= m < ds.len() ==> 0 <= #[trigger] ds[m].0 < n && ds[m].1 == contents[ds[m].0],
        forall|q: int| 0 <= q < n ==> #[trigger] spec_delivered_from(ds, 0, q),
    ensures
        spec_apply_deliveries(Seq::new(n as nat, |i: int| None::<Seq<u8>>), ds, 0) == Seq::new(
            n as nat,
            |i: int| Some(contents[i]),
        ),
{
    let empty = Seq::new(n as nat, |i: int| None::<Seq<u8>>);
    assert forall|q: int| 0 <= q < n implies spec_apply_deliveries(empty, ds, 0)[q] == Some(
        contents[q],
    ) by {
        lemma_apply_deliveries_pointwise(empty, contents, ds, 0, q);
    }
    assert(spec_apply_deliveries(empty, ds, 0).len() == n) by {
        lemma_apply_deliveries_len(empty, ds, 0);
    }
    assert(spec_apply_deliveries(empty, ds, 0) =~= Seq::new(n as nat, |i: int| Some(contents[i])));
}

proof fn lemma_apply_deliveries_len(slots: Seq<Option<Seq<u8>>>, ds: Seq<(int, Seq<u8>)>, k: int)
    requires
        forall|m: int| 0 <= m < ds.len() ==> 0 <= #[trigger] ds[m].0 < slots.len(),
    ensures
        spec_apply_deliveries(slots, ds, k).len() == slots.len(),
    decreases ds.len() - k,
{
    if k < 0 || k >= ds.len() {
    } else {
        lemma_apply_deliveries_len(slots.update(ds[k].0, Some(ds[k].1)), ds, k + 1);
    }
}

} // verus!
