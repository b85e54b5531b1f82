//! Resumable confirmation progress: which pages of a multi-page flow were
//! already approved, and how a resumed run replays them.

use vstd::prelude::*;

verus! {

/// How many pages of the current flow were already confirmed.
#[derive(Clone, Copy, Debug, PartialEq, Eq)]
pub struct Resumable {
    pub page: usize,
}

/// Handle for one page of a flow: its absolute index.
#[derive(Clone, Copy, Debug, PartialEq, Eq)]
pub struct ResumableState {
    pub page: usize,
}

/// One entry of a wrapped sequence: the item's position in the sequence,
/// the page handle and whether the page must be drawn.
#[derive(Clone, Copy, Debug, PartialEq, Eq)]
pub struct PageSlot {
    pub item: usize,
    pub state: ResumableState,
    pub draw: bool,
}

/// What a run resumed at `cursor` does with the page at absolute index `page`:
/// nothing for a page already behind the cursor; otherwise the page goes
/// through confirmation, and it is drawn only when it is the cursor's page.
pub open spec fn page_plan(cursor: int, page: int) -> Option<(int, bool)> {
    if page < cursor {
        None
    } else {
        Some((page, page == cursor))
    }
}

/// First absolute index of a sequence placed at `offset` that a run resumed at
/// `cursor` still visits.
pub open spec fn first_visited(cursor: int, offset: int) -> int {
    if cursor > offset {
        cursor
    } else {
        offset
    }
}

impl Resumable {
    /// A cursor for a brand-new flow.
    pub fn fresh() -> (r: Resumable)
        ensures
            r.page == 0,
    {
        Resumable { page: 0 }
    }

    /// The plan for the page at absolute index `offset`.
    pub fn single_page_with_offset(&self, offset: usize) -> (r: Option<(ResumableState, bool)>)
        ensures
            r.is_none() <==> page_plan(self.page as int, offset as int).is_none(),
            r matches Some((s, draw)) ==> page_plan(self.page as int, offset as int) == Some(
                (s.page as int, draw),
            ),
    {
        if offset < self.page {
            None
        } else {
            Some((ResumableState { page: offset }, offset == self.page))
        }
    }

    /// The plan for a sequence of `n` items whose first item is the page at
    /// absolute index `offset`: one slot for each item still to be visited,
    /// in order.
    pub fn wrap_iter_with_offset(&self, offset: usize, n: usize) -> (r: Vec<PageSlot>)
        requires
            offset + n <= usize::MAX,
        ensures
            r@.len() == (if first_visited(self.page as int, offset as int) <= offset + n {
                (offset + n - first_visited(self.page as int, offset as int)) as nat
            } else {
                0
            }),
            forall|j: int|
                #![trigger r@[j]]
                0 <= j < r@.len() ==> {
                    let p = first_visited(self.page as int, offset as int) + j;
                    &&& r@[j].item == p - offset
                    &&& r@[j].state.page == p
                    &&& page_plan(self.page as int, p) == Some((p, r@[j].draw))
                },
    {
        let mut out: Vec<PageSlot> = Vec::new();
        let start: usize = if self.page > offset {
            self.page
        } else {
            offset
        };
        let end: usize = offset + n;
        let mut p: usize = start;
        while p < end
            invariant
                start == first_visited(self.page as int, offset as int),
                end == offset + n,
                start <= p,
                p <= end || (p == start && start > end),
                out@.len() == p - start,
                forall|j: int|
                    #![trigger out@[j]]
                    0 <= j < out@.len() ==> {
                        let q = start + j;
                        &&& out@[j].item == q - offset
                        &&& out@[j].state.page == q
                        &&& page_plan(self.page as int, q) == Some((q, out@[j].draw))
                    },
            decreases end - p,
        {
            out.push(PageSlot { item: p - offset, state: ResumableState { page: p }, draw: p == self.page });
            p = p + 1;
        }
        out
    }

    /// The plan for a sequence of `n` items starting at the first page.
    pub fn wrap_iter(&self, n: usize) -> (r: Vec<PageSlot>)
        ensures
            r@.len() == (if self.page <= n {
                (n - self.page) as nat
            } else {
                0
            }),
            forall|j: int|
                #![trigger r@[j]]
                0 <= j < r@.len() ==> {
                    let p = self.page + j;
                    &&& r@[j].item == p
                    &&& r@[j].state.page == p
                    &&& r@[j].draw == (j == 0)
                },
    {
        self.wrap_iter_with_offset(0, n)
    }
}

/// Which flow a checkpoint belongs to.
#[derive(Clone, Copy, Debug, PartialEq, Eq, Structural)]
pub enum CheckpointVariant {
    SignPsbt,
    DisplayAddress(u32),
    PublicDescriptor,
    GetXpub,
    SetDescriptor,
    ShowMnemonic,
}

/// Recovery state of the flow in progress: which flow, the data it needs to
/// resume, its cursor, and the key that protects the data at rest.
#[derive(Clone, Debug)]
pub struct Checkpoint {
    pub variant: CheckpointVariant,
    pub aux_data: Option<Vec<u8>>,
    pub resumable: Option<Resumable>,
    pub encryption_key: [u8; 24],
}

impl Checkpoint {
    /// A checkpoint with a key the caller already holds, as when a flow
    /// resumes after a restart.
    pub fn new_with_key(
        variant: CheckpointVariant,
        aux_data: Option<Vec<u8>>,
        resumable: Option<Resumable>,
        encryption_key: [u8; 24],
    ) -> (r: Checkpoint)
        ensures
            r.variant == variant,
            r.aux_data == aux_data,
            r.resumable == resumable,
            r.encryption_key == encryption_key,
    {
        Checkpoint { variant, aux_data, resumable, encryption_key }
    }

    /// Records that the page of `state` was approved: the cursor moves just
    /// past it, and so only forward.
    pub fn confirm_page(&mut self, state: ResumableState)
        requires
            old(self).resumable matches Some(r) && r.page <= state.page,
            state.page < usize::MAX,
        ensures
            final(self).resumable == Some(Resumable { page: (state.page + 1) as usize }),
            final(self).resumable->Some_0.page > old(self).resumable->Some_0.page,
            final(self).variant == old(self).variant,
            final(self).aux_data == old(self).aux_data,
            final(self).encryption_key == old(self).encryption_key,
    {
        self.resumable = Some(Resumable { page: state.page + 1 });
    }
}

/// An input while a page waits for the user.
#[derive(Clone, Copy, Debug, PartialEq, Eq, Structural)]
pub enum ConfirmEvent {
    Confirm,
    Reject,
    Timeout,
    Other,
}

/// What the confirmation loop does after an input.
#[derive(Clone, Copy, Debug, PartialEq, Eq, Structural)]
pub enum ConfirmOutcome {
    /// The page is approved and the cursor has moved past it.
    Approved,
    /// The user cancelled or did not answer: the flow ends here.
    Cancelled,
    /// Nothing for this page: keep waiting.
    Waiting,
    /// The page handle is behind the cursor or past the last index: the
    /// flow is broken and ends here.
    OutOfOrder,
}

impl Checkpoint {
    /// One step of the confirmation loop of the page of `state`: only an
    /// approval moves the cursor, and only forward, just past the page.
    pub fn confirm_step(&mut self, state: ResumableState, event: ConfirmEvent) -> (r: ConfirmOutcome)
        ensures
            final(self).variant == old(self).variant,
            final(self).aux_data == old(self).aux_data,
            final(self).encryption_key == old(self).encryption_key,
            match event {
                ConfirmEvent::Confirm => if (old(self).resumable matches Some(c) && c.page <= state.page
                    && state.page < usize::MAX) {
                    r == ConfirmOutcome::Approved && final(self).resumable == Some(
                        Resumable { page: (state.page + 1) as usize },
                    )
                } else {
                    r == ConfirmOutcome::OutOfOrder && final(self).resumable == old(self).resumable
                },
                ConfirmEvent::Reject | ConfirmEvent::Timeout => r == ConfirmOutcome::Cancelled
                    && final(self).resumable == old(self).resumable,
                ConfirmEvent::Other => r == ConfirmOutcome::Waiting && final(self).resumable == old(
                    self,
                ).resumable,
            },
    {
        match event {
            ConfirmEvent::Confirm => {
                let in_order = match self.resumable {
                    Some(c) => c.page <= state.page && state.page < usize::MAX,
                    None => false,
                };
                if in_order {
                    self.confirm_page(state);
                    ConfirmOutcome::Approved
                } else {
                    ConfirmOutcome::OutOfOrder
                }
            },
            ConfirmEvent::Reject | ConfirmEvent::Timeout => ConfirmOutcome::Cancelled,
            ConfirmEvent::Other => ConfirmOutcome::Waiting,
        }
    }
}

/// A run resumed at cursor `k` over `n` pages skips exactly the pages below
/// `k`, sends every page from `k` on through confirmation, and draws only
/// page `k`.
pub proof fn lemma_resume_at_cursor(k: int, n: int)
    requires
        0 <= k <= n,
    ensures
        forall|i: int| 0 <= i < n ==> (#[trigger] page_plan(k, i) is None <==> i < k),
        forall|i: int| 0 <= i < n && k <= i ==> #[trigger] page_plan(k, i) == Some((i, i == k)),
        k < n ==> page_plan(k, k) == Some((k, true)),
{
}

} // verus!
