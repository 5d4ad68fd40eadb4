//! One output buffer: a token-addressed sequence of result pages that a
//! consumer pulls and acknowledges.
//!
//! Pages get consecutive tokens, starting at 0, in the order in which they
//! are enqueued. The buffer keeps the pages from its low watermark (the
//! lowest token not yet acknowledged) up to its high watermark (the next
//! token to assign). Acknowledging moves the low watermark up and evicts the
//! pages below it, which are never delivered again.

use crate::error::WorkerError;
use crate::ident::BufferId;
use crate::memory::ReservationHandle;
use vstd::prelude::*;

verus! {

/// The batch size: the most pages that one pull delivers.
pub const MAX_BATCH_PAGES: usize = 64;

/// A page as the model sees it: its bytes, and the handle of the memory
/// reservation that pays for them, if there is one.
pub struct PageView {
    pub data: Seq<u8>,
    pub charge: Option<int>,
}

/// What one pull returns.
pub struct BatchView {
    /// The token of the first page, which is the token that was asked for.
    pub token: nat,
    /// The token to ask for next.
    pub next_token: nat,
    /// The bytes of the pages with tokens `token`, `token + 1`, ...
    pub pages: Seq<Seq<u8>>,
    /// The stream has ended: the buffer is complete and holds nothing at or
    /// after `token`.
    pub no_more_pages: bool,
}

/// The model of a buffer.
pub struct BufferView {
    pub id: Seq<char>,
    /// The lowest token that has not been acknowledged.
    pub low: nat,
    /// The token that the next page gets.
    pub high: nat,
    /// The retained pages, those with tokens `low .. high`, in token order.
    pub pages: Seq<PageView>,
    /// No more pages will come.
    pub complete: bool,
}

impl BufferView {
    /// The retained pages are exactly those from the low watermark up to the
    /// high watermark.
    pub open spec fn valid(self) -> bool {
        self.low + self.pages.len() == self.high
    }

    /// A buffer into which nothing was enqueued yet.
    pub open spec fn fresh(id: Seq<char>) -> BufferView {
        BufferView { id, low: 0, high: 0, pages: Seq::empty(), complete: false }
    }

    /// The retained page with the given token.
    pub open spec fn page_at(self, token: nat) -> PageView
        recommends
            self.low <= token < self.high,
    {
        self.pages[token - self.low]
    }

    /// A page offered to the buffer finds a token: the buffer ignores it, or
    /// the high watermark can still grow.
    pub open spec fn has_room(self) -> bool {
        self.complete || self.high < u64::MAX
    }

    /// Complete, and everything that was enqueued has been acknowledged.
    pub open spec fn finished(self) -> bool {
        self.complete && self.low == self.high
    }

    /// The buffer after `page` was offered: appended under the token `high`,
    /// unless the buffer is complete, which ignores it.
    pub open spec fn enqueue(self, page: PageView) -> BufferView {
        if self.complete {
            self
        } else {
            BufferView { high: self.high + 1, pages: self.pages.push(page), ..self }
        }
    }

    /// The buffer after each page of `pages` was offered, in order.
    pub open spec fn enqueue_all(self, pages: Seq<PageView>) -> BufferView
        decreases pages.len(),
    {
        if pages.len() == 0 {
            self
        } else {
            self.enqueue_all(pages.drop_last()).enqueue(pages.last())
        }
    }

    pub open spec fn mark_complete(self) -> BufferView {
        BufferView { complete: true, ..self }
    }

    /// The low watermark after acknowledging up to `upto`: it never moves
    /// down, and never past the high watermark.
    pub open spec fn acknowledged_low(self, upto: nat) -> nat {
        if upto <= self.low {
            self.low
        } else if upto > self.high {
            self.high
        } else {
            upto
        }
    }

    /// The pages that acknowledging up to `upto` evicts.
    pub open spec fn evicted(self, upto: nat) -> Seq<PageView> {
        self.pages.take(self.acknowledged_low(upto) - self.low)
    }

    /// The buffer after acknowledging up to `upto`.
    pub open spec fn acknowledge(self, upto: nat) -> BufferView {
        BufferView {
            low: self.acknowledged_low(upto),
            pages: self.pages.skip(self.acknowledged_low(upto) - self.low),
            ..self
        }
    }

    /// A pull at `token` finds nothing yet, and more may come: the buffer
    /// holds no page at or after `token` and is not complete.
    pub open spec fn awaits(self, token: nat) -> bool {
        self.low <= token && self.high <= token && !self.complete
    }

    /// The number of pages that a pull at `token` delivers: what the buffer
    /// holds from `token` on, up to the batch size.
    pub open spec fn batch_len(self, token: nat) -> nat {
        if token < self.low || token >= self.high {
            0
        } else if self.high - token <= MAX_BATCH_PAGES {
            (self.high - token) as nat
        } else {
            MAX_BATCH_PAGES as nat
        }
    }

    /// The answer to a pull at `token`.
    ///
    /// Below the low watermark the data is gone and the pull is an error. At
    /// or past the high watermark the answer is empty, and it is the end of
    /// the stream exactly when the buffer is complete. In between, the
    /// answer holds the pages from `token` on, in token order: at least
    /// one, and no more than the batch size.
    pub open spec fn get(self, token: nat) -> Result<BatchView, WorkerError> {
        if token < self.low {
            Err(WorkerError::TokenOutOfRange)
        } else {
            let count = self.batch_len(token);
            Ok(
                BatchView {
                    token,
                    next_token: token + count,
                    pages: Seq::new(count, |i: int| self.pages[token - self.low + i].data),
                    no_more_pages: self.complete && token >= self.high,
                },
            )
        }
    }
}

/// Pages keep the order in which they went in: after any sequence of pages
/// was offered to a buffer, the k-th page offered stands under the k-th
/// token assigned, and nothing that was there before has moved. A buffer
/// that is complete takes none of them.
pub proof fn lemma_enqueue_order(b: BufferView, pages: Seq<PageView>)
    requires
        b.valid(),
    ensures
        b.enqueue_all(pages).valid(),
        b.complete ==> b.enqueue_all(pages) == b,
        !b.complete ==> {
            &&& !b.enqueue_all(pages).complete
            &&& b.enqueue_all(pages).id == b.id
            &&& b.enqueue_all(pages).low == b.low
            &&& b.enqueue_all(pages).high == b.high + pages.len()
            &&& b.enqueue_all(pages).pages == b.pages + pages
            &&& forall|k: int|
                0 <= k < pages.len() ==> b.enqueue_all(pages).page_at((b.high + k) as nat)
                    == pages[k]
            &&& forall|token: nat|
                b.low <= token < b.high ==> b.enqueue_all(pages).page_at(token) == b.page_at(token)
        },
    decreases pages.len(),
{
    if pages.len() > 0 {
        lemma_enqueue_order(b, pages.drop_last());
        assert(b.pages + pages =~= (b.pages + pages.drop_last()).push(pages.last()));
    } else {
        assert(b.pages + pages =~= b.pages);
    }
}

/// A pull delivers a run of consecutive tokens that starts at the token
/// asked for: the i-th page of the answer is the page enqueued under the
/// token `token + i`, so tokens strictly increase along the answer and no
/// page is skipped, repeated or reordered.
pub proof fn lemma_get_in_order(b: BufferView, token: nat, i: int)
    requires
        b.valid(),
        0 <= i < b.batch_len(token),
    ensures
        b.get(token) is Ok,
        b.get(token)->Ok_0.token == token,
        b.get(token)->Ok_0.pages.len() == b.batch_len(token),
        b.get(token)->Ok_0.next_token == token + b.batch_len(token),
        b.low <= token + i < b.high,
        b.get(token)->Ok_0.pages[i] == b.page_at((token + i) as nat).data,
{
}

/// What went in comes out: after pages were enqueued into an open buffer, a
/// pull at a token that one of them got is answered with at least one page
/// and with no more than are there; the answer starts at that token, and its
/// i-th page is the page that was enqueued under the token `token + i`.
pub proof fn lemma_pull_returns_enqueued(b: BufferView, pages: Seq<PageView>, token: nat)
    requires
        b.valid(),
        !b.complete,
        b.high <= token < b.high + pages.len(),
    ensures
        b.enqueue_all(pages).get(token) is Ok,
        b.enqueue_all(pages).get(token)->Ok_0.token == token,
        1 <= b.enqueue_all(pages).get(token)->Ok_0.pages.len() <= b.high + pages.len() - token,
        b.enqueue_all(pages).get(token)->Ok_0.pages.len() <= MAX_BATCH_PAGES,
        b.enqueue_all(pages).get(token)->Ok_0.next_token == token + b.enqueue_all(pages).get(
            token,
        )->Ok_0.pages.len(),
        !b.enqueue_all(pages).get(token)->Ok_0.no_more_pages,
        forall|i: int|
            0 <= i < b.enqueue_all(pages).get(token)->Ok_0.pages.len() ==> #[trigger] b.enqueue_all(
                pages,
            ).get(token)->Ok_0.pages[i] == pages[token - b.high + i].data,
{
    lemma_enqueue_order(b, pages);
    let filled = b.enqueue_all(pages);
    assert forall|i: int| 0 <= i < filled.get(token)->Ok_0.pages.len() implies #[trigger] filled.get(
        token,
    )->Ok_0.pages[i] == pages[token - b.high + i].data by {
        lemma_get_in_order(filled, token, i);
        assert(filled.page_at((token + i) as nat) == pages[token + i - b.high]);
    }
}

/// The low watermark never regresses: acknowledging a lower token after a
/// higher one changes nothing.
pub proof fn lemma_acknowledge_monotonic(b: BufferView, first: nat, second: nat)
    requires
        b.valid(),
    ensures
        b.acknowledge(first).valid(),
        b.acknowledge(first).low >= b.low,
        b.acknowledge(first).acknowledge(second).low >= b.acknowledge(first).low,
        second <= first ==> b.acknowledge(first).acknowledge(second) == b.acknowledge(first),
        first <= b.high ==> b.acknowledge(first).low >= first,
{
    let once = b.acknowledge(first);
    if second <= first {
        assert(once.acknowledged_low(second) == once.low);
        assert(once.pages.skip(0) =~= once.pages);
    }
}

/// Asking again gives the same data: the answer to a pull depends on the
/// buffer alone, and of what can happen to a buffer only a new page or an
/// acknowledgment changes it. Marking the buffer complete in between leaves
/// the pages and the tokens of the answer as they were.
pub proof fn lemma_get_repeatable(b: BufferView, token: nat)
    ensures
        b.mark_complete().get(token) is Err <==> b.get(token) is Err,
        b.get(token) matches Ok(first) ==> {
            &&& b.mark_complete().get(token) matches Ok(second)
            &&& second.token == first.token
            &&& second.next_token == first.next_token
            &&& second.pages == first.pages
        },
{
    if b.get(token) is Ok {
        assert(b.mark_complete().get(token)->Ok_0.pages =~= b.get(
            token,
        )->Ok_0.pages);
    }
}

/// What ends the wait of a pull: a page under the token it waits for, or the
/// end of the stream. An acknowledgment does not.
pub proof fn lemma_changes_end_waits(b: BufferView, page: PageView, token: nat, upto: nat)
    requires
        b.valid(),
    ensures
        !b.enqueue(page).awaits(b.high),
        !b.mark_complete().awaits(token),
        b.awaits(token) ==> b.acknowledge(upto).awaits(token),
{
}

/// A pull below the low watermark always fails, and a pull at or past the
/// high watermark of a complete buffer always ends the stream.
pub proof fn lemma_get_edges(b: BufferView, token: nat)
    ensures
        token < b.low ==> b.get(token) == Err::<BatchView, WorkerError>(
            WorkerError::TokenOutOfRange,
        ),
        b.complete && token >= b.high && token >= b.low ==> b.get(token) == Ok::<
            BatchView,
            WorkerError,
        >(BatchView { token, next_token: token, pages: Seq::empty(), no_more_pages: true }),
        !b.complete && token >= b.low ==> b.get(token) is Ok && !b.get(
            token,
        )->Ok_0.no_more_pages,
{
    if b.complete && token >= b.high && token >= b.low {
        assert(b.get(token)->Ok_0.pages =~= Seq::<Seq<u8>>::empty());
    }
}

/// A page of result data. Its bytes are never changed once it exists.
#[derive(Debug)]
pub struct Page {
    data: Vec<u8>,
    charge: Option<ReservationHandle>,
}

impl View for Page {
    type V = PageView;

    closed spec fn view(&self) -> PageView {
        PageView {
            data: self.data@,
            charge: match self.charge {
                Some(handle) => Some(handle@),
                None => None,
            },
        }
    }
}

impl Page {
    /// A page whose memory nobody accounts for.
    pub fn new(data: Vec<u8>) -> (page: Page)
        ensures
            page@ == (PageView { data: data@, charge: None }),
    {
        Page { data, charge: None }
    }

    /// A page whose memory is paid for by the reservation behind `charge`.
    pub fn charged(data: Vec<u8>, charge: ReservationHandle) -> (page: Page)
        ensures
            page@ == (PageView { data: data@, charge: Some(charge@) }),
    {
        Page { data, charge: Some(charge) }
    }

    pub fn data(&self) -> (data: &Vec<u8>)
        ensures
            data@ == self@.data,
    {
        &self.data
    }

    /// The size of the page in bytes.
    pub fn size(&self) -> (bytes: usize)
        ensures
            bytes == self@.data.len(),
    {
        self.data.len()
    }

    /// The reservation that pays for the page, if there is one.
    pub fn charge(&self) -> (charge: Option<ReservationHandle>)
        ensures
            match charge {
                Some(handle) => self@.charge == Some(handle@),
                None => self@.charge is None,
            },
    {
        self.charge
    }
}

/// The views of a list of pages, in order.
pub open spec fn page_views(pages: Seq<Page>) -> Seq<PageView> {
    Seq::new(pages.len(), |i: int| pages[i]@)
}

/// The answer to one pull: the pages with tokens `token .. next_token`.
#[derive(Debug)]
pub struct Batch {
    pub token: u64,
    pub next_token: u64,
    pub pages: Vec<Vec<u8>>,
    pub no_more_pages: bool,
}

impl View for Batch {
    type V = BatchView;

    open spec fn view(&self) -> BatchView {
        BatchView {
            token: self.token as nat,
            next_token: self.next_token as nat,
            pages: Seq::new(self.pages@.len(), |i: int| self.pages@[i]@),
            no_more_pages: self.no_more_pages,
        }
    }
}

/// What a long poll does next.
#[derive(Debug)]
pub enum PollStep {
    /// Answer the consumer with this batch.
    Reply(Batch),
    /// Park the request until the buffer changes or the wait runs out, then
    /// poll again.
    Wait,
}

fn copy_bytes(bytes: &Vec<u8>) -> (copy: Vec<u8>)
    ensures
        copy@ == bytes@,
{
    let mut copy: Vec<u8> = Vec::new();
    let mut i: usize = 0;
    while i < bytes.len()
        invariant
            i <= bytes@.len(),
            copy@ == bytes@.take(i as int),
        decreases bytes@.len() - i,
    {
        copy.push(bytes[i]);
        proof {
            assert(bytes@.take(i + 1) =~= bytes@.take(i as int).push(bytes@[i as int]));
        }
        i = i + 1;
    }
    proof {
        assert(bytes@.take(i as int) =~= bytes@);
    }
    copy
}

/// One output buffer of a task.
#[derive(Debug)]
pub struct OutputBuffer {
    id: BufferId,
    pages: Vec<Page>,
    low: u64,
    high: u64,
    complete: bool,
}

impl View for OutputBuffer {
    type V = BufferView;

    closed spec fn view(&self) -> BufferView {
        BufferView {
            id: self.id@,
            low: self.low as nat,
            high: self.high as nat,
            pages: page_views(self.pages@),
            complete: self.complete,
        }
    }
}

impl OutputBuffer {
    /// The buffer's invariant: it retains the pages between its watermarks.
    pub closed spec fn wf(&self) -> bool {
        self@.valid()
    }

    pub proof fn lemma_wf_valid(&self)
        requires
            self.wf(),
        ensures
            self@.valid(),
            self@.high <= u64::MAX,
    {
    }

    /// An empty buffer that accepts pages.
    pub fn new(id: BufferId) -> (buffer: OutputBuffer)
        ensures
            buffer.wf(),
            buffer@ == BufferView::fresh(id@),
    {
        let buffer = OutputBuffer { id, pages: Vec::new(), low: 0, high: 0, complete: false };
        proof {
            assert(buffer@.pages =~= Seq::empty());
        }
        buffer
    }

    pub fn id(&self) -> (id: &BufferId)
        ensures
            id@ == self@.id,
    {
        &self.id
    }

    /// The lowest token that has not been acknowledged.
    pub fn low_watermark(&self) -> (token: u64)
        ensures
            token == self@.low,
    {
        self.low
    }

    /// The token that the next page gets.
    pub fn high_watermark(&self) -> (token: u64)
        ensures
            token == self@.high,
    {
        self.high
    }

    /// Whether the buffer was marked complete.
    pub fn is_complete(&self) -> (complete: bool)
        ensures
            complete == self@.complete,
    {
        self.complete
    }

    /// Whether the buffer is complete and everything in it was acknowledged.
    pub fn is_finished(&self) -> (finished: bool)
        ensures
            finished == self@.finished(),
    {
        self.complete && self.low == self.high
    }

    /// Whether a page offered to the buffer finds a token.
    pub fn has_room(&self) -> (room: bool)
        ensures
            room == self@.has_room(),
    {
        self.complete || self.high < u64::MAX
    }

    /// Appends `page` under the next token and returns that token. A buffer
    /// that is complete ignores the page and returns `None`.
    pub fn enqueue(&mut self, page: Page) -> (token: Option<u64>)
        requires
            old(self).wf(),
            old(self)@.has_room(),
        ensures
            final(self).wf(),
            final(self)@ == old(self)@.enqueue(page@),
            match token {
                Some(t) => !old(self)@.complete && t == old(self)@.high,
                None => old(self)@.complete,
            },
    {
        if self.complete {
            return None;
        }
        let token = self.high;
        self.pages.push(page);
        self.high = token + 1;
        proof {
            assert(self@.pages =~= old(self)@.pages.push(page@));
        }
        Some(token)
    }

    /// Marks the buffer complete: no page will be accepted any more, and a
    /// pull past the last page ends the stream instead of waiting.
    pub fn mark_complete(&mut self)
        requires
            old(self).wf(),
        ensures
            final(self).wf(),
            final(self)@ == old(self)@.mark_complete(),
    {
        self.complete = true;
    }

    /// Moves the low watermark up to `upto`, or to the high watermark if
    /// `upto` lies past it, and hands back the pages that this evicts. A
    /// token at or below the low watermark changes nothing.
    pub fn acknowledge(&mut self, upto: u64) -> (evicted: Vec<Page>)
        requires
            old(self).wf(),
        ensures
            final(self).wf(),
            final(self)@ == old(self)@.acknowledge(upto as nat),
            page_views(evicted@) == old(self)@.evicted(upto as nat),
    {
        let target = if upto <= self.low {
            self.low
        } else if upto > self.high {
            self.high
        } else {
            upto
        };
        let held = self.pages.len();
        assert(self.low + held == self.high) by {
            assert(self@.pages.len() == held);
        }
        let count = (target - self.low) as usize;
        let mut kept = self.pages.split_off(count);
        std::mem::swap(&mut self.pages, &mut kept);
        self.low = target;
        proof {
            assert(self@.pages =~= old(self)@.pages.skip(count as int));
            assert(page_views(kept@) =~= old(self)@.pages.take(count as int));
        }
        kept
    }

    /// Answers a pull at `token` with at most one batch of pages. The buffer
    /// is not changed, so asking again gives the same answer.
    pub fn get(&self, token: u64) -> (answer: Result<Batch, WorkerError>)
        requires
            self.wf(),
        ensures
            match self@.get(token as nat) {
                Ok(batch) => answer matches Ok(b) && b@ == batch,
                Err(e) => answer == Err::<Batch, WorkerError>(e),
            },
    {
        if token < self.low {
            return Err(WorkerError::TokenOutOfRange);
        }
        let mut pages: Vec<Vec<u8>> = Vec::new();
        if token >= self.high {
            let batch = Batch { token, next_token: token, pages, no_more_pages: self.complete };
            proof {
                assert(batch@.pages =~= self@.get(token as nat)->Ok_0.pages);
            }
            return Ok(batch);
        }
        let held = self.pages.len();
        assert(self.low + held == self.high) by {
            assert(self@.pages.len() == held);
        }
        let available = self.high - token;
        let count: usize = if available <= MAX_BATCH_PAGES as u64 {
            available as usize
        } else {
            MAX_BATCH_PAGES
        };
        let first = (token - self.low) as usize;
        let ghost expected = self@.get(token as nat)->Ok_0;
        let mut i: usize = 0;
        while i < count
            invariant
                self.wf(),
                i <= count,
                held == self.pages@.len(),
                first + count <= held,
                first == token - self.low,
                count == self@.batch_len(token as nat),
                expected == self@.get(token as nat)->Ok_0,
                self.low <= token < self.high,
                pages@.len() == i,
                forall|j: int| 0 <= j < i ==> (#[trigger] pages@[j])@ == expected.pages[j],
            decreases count - i,
        {
            pages.push(copy_bytes(&self.pages[first + i].data));
            i = i + 1;
        }
        let batch = Batch { token, next_token: token + count as u64, pages, no_more_pages: false };
        proof {
            assert(batch@.pages =~= expected.pages);
        }
        Ok(batch)
    }

    /// One step of a long poll at `token`: the answer to give, or the
    /// instruction to wait. The poll waits only while the buffer holds
    /// nothing at or after `token`, more may come, and the consumer's
    /// patience has not run out; once it has, the answer is the empty batch.
    pub fn poll(&self, token: u64, timed_out: bool) -> (step: Result<
        PollStep,
        WorkerError,
    >)
        requires
            self.wf(),
        ensures
            match self@.get(token as nat) {
                Ok(batch) => if self@.awaits(token as nat) && !timed_out {
                    step matches Ok(PollStep::Wait)
                } else {
                    step matches Ok(PollStep::Reply(b)) && b@ == batch
                },
                Err(e) => step matches Err(err) && err == e,
            },
    {
        if token >= self.low && token >= self.high && !self.complete && !timed_out {
            return Ok(PollStep::Wait);
        }
        match self.get(token) {
            Ok(batch) => Ok(PollStep::Reply(batch)),
            Err(e) => Err(e),
        }
    }

    /// The pages that the buffer holds, in token order.
    pub fn retained(&self) -> (pages: &Vec<Page>)
        ensures
            page_views(pages@) == self@.pages,
    {
        &self.pages
    }

    /// Takes the buffer apart and hands back the pages it still held.
    pub fn into_pages(self) -> (pages: Vec<Page>)
        requires
            self.wf(),
        ensures
            page_views(pages@) == self@.pages,
    {
        self.pages
    }
}

} // verus!
