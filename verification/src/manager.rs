//! The output buffers of one task.
//!
//! The manager owns the buffers, finds them by name, and hands the memory of
//! evicted and destroyed pages back to the accountant.

use crate::buffer::{Batch, BufferView, OutputBuffer, Page, PageView, PollStep, page_views};
use crate::error::{Missing, WorkerError};
use crate::ident::BufferId;
use crate::memory::{AccountantView, MemoryPoolAccountant};
use crate::names::{
    distinct,
    lemma_position_absent,
    lemma_position_found,
    lemma_position_stands,
    lemma_push_fresh,
    lemma_remove_distinct,
    position,
};
use vstd::prelude::*;

verus! {

/// The accountant after the reservations that pay for `pages` were released,
/// page by page.
pub open spec fn release_pages(a: AccountantView, pages: Seq<PageView>) -> AccountantView
    decreases pages.len(),
{
    if pages.len() == 0 {
        a
    } else {
        let rest = release_pages(a, pages.drop_last());
        match pages.last().charge {
            Some(handle) => rest.release(handle),
            None => rest,
        }
    }
}

/// The accountant after the pages of every buffer of `buffers` were
/// released, buffer by buffer.
pub open spec fn release_buffers(a: AccountantView, buffers: Seq<BufferView>) -> AccountantView
    decreases buffers.len(),
{
    if buffers.len() == 0 {
        a
    } else {
        release_pages(release_buffers(a, buffers.drop_last()), buffers.last().pages)
    }
}

/// The model of a manager: its buffers in the order of their creation.
pub struct ManagerView {
    pub buffers: Seq<BufferView>,
}

impl ManagerView {
    pub open spec fn names(self) -> Seq<Seq<char>> {
        Seq::new(self.buffers.len(), |i: int| self.buffers[i].id)
    }

    /// Where the buffer named `id` stands, if the manager has it.
    pub open spec fn index_of(self, id: Seq<char>) -> Option<int> {
        position(self.names(), id)
    }

    /// No two buffers share a name, and each buffer is valid.
    pub open spec fn valid(self) -> bool {
        &&& distinct(self.names())
        &&& forall|i: int| 0 <= i < self.buffers.len() ==> (#[trigger] self.buffers[i]).valid()
    }

    /// Whether a page offered to the buffer named `id` finds a token: the
    /// buffer ignores it, or its high watermark can still grow.
    pub open spec fn has_room(self, id: Seq<char>) -> bool {
        match self.index_of(id) {
            Some(i) => self.buffers[i].has_room(),
            None => true,
        }
    }

    /// The manager with the buffer at index `i` replaced.
    pub open spec fn with_buffer(self, i: int, buffer: BufferView) -> ManagerView {
        ManagerView { buffers: self.buffers.update(i, buffer) }
    }

    /// The manager after a buffer named `id` was asked for: an existing one
    /// stays as it is, a missing one is created empty.
    pub open spec fn get_or_create(self, id: Seq<char>) -> ManagerView {
        if self.index_of(id) is Some {
            self
        } else {
            ManagerView { buffers: self.buffers.push(BufferView::fresh(id)) }
        }
    }

    pub open spec fn enqueue(self, id: Seq<char>, page: PageView) -> ManagerView {
        match self.index_of(id) {
            Some(i) => self.with_buffer(i, self.buffers[i].enqueue(page)),
            None => self,
        }
    }

    pub open spec fn mark_complete(self, id: Seq<char>) -> ManagerView {
        match self.index_of(id) {
            Some(i) => self.with_buffer(i, self.buffers[i].mark_complete()),
            None => self,
        }
    }

    /// Every buffer marked complete.
    pub open spec fn complete_all(self) -> ManagerView {
        ManagerView {
            buffers: Seq::new(self.buffers.len(), |i: int| self.buffers[i].mark_complete()),
        }
    }

    pub open spec fn acknowledge(self, id: Seq<char>, upto: nat) -> ManagerView {
        match self.index_of(id) {
            Some(i) => self.with_buffer(i, self.buffers[i].acknowledge(upto)),
            None => self,
        }
    }

    /// The manager without the buffer named `id`.
    pub open spec fn destroy(self, id: Seq<char>) -> ManagerView {
        match self.index_of(id) {
            Some(i) => ManagerView { buffers: self.buffers.remove(i) },
            None => self,
        }
    }

    /// A pull at `token` from the buffer named `id` finds nothing yet, and
    /// more may come.
    pub open spec fn awaits(self, id: Seq<char>, token: nat) -> bool {
        match self.index_of(id) {
            Some(i) => self.buffers[i].awaits(token),
            None => false,
        }
    }

    /// The answer to a pull at `token` from the buffer named `id`.
    pub open spec fn get(self, id: Seq<char>, token: nat) -> Result<
        crate::buffer::BatchView,
        WorkerError,
    > {
        match self.index_of(id) {
            Some(i) => self.buffers[i].get(token),
            None => Err(WorkerError::NotFound(Missing::Buffer)),
        }
    }
}

/// Once every buffer is marked complete, no pull from any of them waits, and
/// a pull at or past a buffer's high watermark is told that the stream has
/// ended.
pub proof fn lemma_complete_all_never_waits(
    m: ManagerView,
    id: Seq<char>,
    token: nat,
)
    requires
        m.valid(),
    ensures
        m.complete_all().valid(),
        m.complete_all().names() == m.names(),
        !m.complete_all().awaits(id, token),
        m.index_of(id) matches Some(i) && token >= m.buffers[i].high ==> m.complete_all().get(
            id,
            token,
        ) == Ok::<crate::buffer::BatchView, WorkerError>(
            crate::buffer::BatchView {
                token,
                next_token: token,
                pages: Seq::empty(),
                no_more_pages: true,
            },
        ),
{
    let c = m.complete_all();
    assert(c.names() =~= m.names());
    assert forall|i: int| 0 <= i < c.buffers.len() implies (#[trigger] c.buffers[i]).valid() by {
        assert(m.buffers[i].valid());
    }
    lemma_position_stands(m.names(), id);
    if let Some(i) = m.index_of(id) {
        assert(m.buffers[i].valid());
        assert(c.buffers[i] == m.buffers[i].mark_complete());
        crate::buffer::lemma_get_edges(c.buffers[i], token);
    }
}

/// What a status report says of one buffer.
#[derive(Debug)]
pub struct BufferInfo {
    pub id: BufferId,
    pub low_watermark: u64,
    pub high_watermark: u64,
    pub complete: bool,
}

pub struct BufferInfoView {
    pub id: Seq<char>,
    pub low_watermark: nat,
    pub high_watermark: nat,
    pub complete: bool,
}

impl View for BufferInfo {
    type V = BufferInfoView;

    open spec fn view(&self) -> BufferInfoView {
        BufferInfoView {
            id: self.id@,
            low_watermark: self.low_watermark as nat,
            high_watermark: self.high_watermark as nat,
            complete: self.complete,
        }
    }
}

impl BufferView {
    /// What a status report says of this buffer.
    pub open spec fn info(self) -> BufferInfoView {
        BufferInfoView {
            id: self.id,
            low_watermark: self.low,
            high_watermark: self.high,
            complete: self.complete,
        }
    }
}

impl ManagerView {
    /// The report on every buffer, in the order of their creation.
    pub open spec fn infos(self) -> Seq<BufferInfoView> {
        Seq::new(self.buffers.len(), |i: int| self.buffers[i].info())
    }
}

/// The views of a list of buffer reports, in order.
pub open spec fn info_views(infos: Seq<BufferInfo>) -> Seq<BufferInfoView> {
    Seq::new(infos.len(), |i: int| infos[i]@)
}

/// Releases the reservations that pay for `pages`.
pub fn release_page_charges(accountant: &mut MemoryPoolAccountant, pages: &Vec<Page>)
    requires
        old(accountant).wf(),
    ensures
        final(accountant).wf(),
        final(accountant)@ == release_pages(old(accountant)@, page_views(pages@)),
{
    let ghost views = page_views(pages@);
    let mut i: usize = 0;
    while i < pages.len()
        invariant
            i <= pages@.len(),
            accountant.wf(),
            views == page_views(pages@),
            accountant@ == release_pages(old(accountant)@, views.take(i as int)),
        decreases pages@.len() - i,
    {
        proof {
            assert(views.take(i + 1).drop_last() =~= views.take(i as int));
            assert(views.take(i + 1).last() == pages@[i as int]@);
        }
        match pages[i].charge() {
            Some(handle) => {
                accountant.release(handle);
            },
            None => {},
        }
        i = i + 1;
    }
    proof {
        assert(views.take(i as int) =~= views);
    }
}

/// The output buffers of one task.
#[derive(Debug)]
pub struct OutputBufferManager {
    buffers: Vec<OutputBuffer>,
}

impl View for OutputBufferManager {
    type V = ManagerView;

    closed spec fn view(&self) -> ManagerView {
        ManagerView { buffers: Seq::new(self.buffers@.len(), |i: int| self.buffers@[i]@) }
    }
}

impl OutputBufferManager {
    /// The manager's invariant: buffer names are unique and every buffer
    /// keeps its own invariant.
    pub closed spec fn wf(&self) -> bool {
        &&& distinct(self@.names())
        &&& forall|i: int| 0 <= i < self.buffers@.len() ==> (#[trigger] self.buffers@[i]).wf()
    }

    pub proof fn lemma_wf_valid(&self)
        requires
            self.wf(),
        ensures
            self@.valid(),
    {
        assert forall|i: int| 0 <= i < self@.buffers.len() implies (#[trigger] self@.buffers[i]).valid() by {
            self.buffers@[i].lemma_wf_valid();
        }
    }

    /// A manager without buffers.
    pub fn new() -> (manager: OutputBufferManager)
        ensures
            manager.wf(),
            manager@.buffers.len() == 0,
    {
        OutputBufferManager { buffers: Vec::new() }
    }

    /// The number of buffers.
    pub fn len(&self) -> (n: usize)
        ensures
            n == self@.buffers.len(),
    {
        self.buffers.len()
    }

    fn find(&self, id: &BufferId) -> (found: Option<usize>)
        requires
            distinct(self@.names()),
        ensures
            match found {
                Some(i) => self@.index_of(id@) == Some(i as int) && i < self.buffers@.len(),
                None => self@.index_of(id@) is None,
            },
    {
        let mut i: usize = 0;
        while i < self.buffers.len()
            invariant
                i <= self.buffers@.len(),
                distinct(self@.names()),
                forall|j: int| 0 <= j < i ==> self@.names()[j] != id@,
            decreases self.buffers@.len() - i,
        {
            if self.buffers[i].id().same(id) {
                proof {
                    assert(self@.names()[i as int] == id@);
                    lemma_position_found(self@.names(), id@, i as int);
                }
                return Some(i);
            }
            i = i + 1;
        }
        proof {
            lemma_position_absent(self@.names(), id@);
        }
        None
    }

    /// Whether the manager has a buffer named `id`.
    pub fn contains(&self, id: &BufferId) -> (has: bool)
        requires
            self.wf(),
        ensures
            has == (self@.index_of(id@) is Some),
    {
        self.find(id).is_some()
    }

    /// Whether a page offered to the buffer named `id` finds a token.
    pub fn has_room(&self, id: &BufferId) -> (room: bool)
        requires
            self.wf(),
        ensures
            room == self@.has_room(id@),
    {
        match self.find(id) {
            Some(i) => self.buffers[i].has_room(),
            None => true,
        }
    }

    /// The buffer named `id`, if the manager has it.
    pub fn buffer(&self, id: &BufferId) -> (found: Option<&OutputBuffer>)
        requires
            self.wf(),
        ensures
            match self@.index_of(id@) {
                Some(i) => found matches Some(b) && b@ == self@.buffers[i] && b.wf(),
                None => found is None,
            },
    {
        match self.find(id) {
            Some(i) => Some(&self.buffers[i]),
            None => None,
        }
    }

    /// Makes sure that a buffer named `id` exists, creating an empty one if
    /// need be. Returns whether it created one.
    pub fn get_or_create_buffer(&mut self, id: &BufferId) -> (created: bool)
        requires
            old(self).wf(),
        ensures
            final(self).wf(),
            final(self)@ == old(self)@.get_or_create(id@),
            created == (old(self)@.index_of(id@) is None),
            final(self)@.index_of(id@) is Some,
    {
        if self.find(id).is_some() {
            return false;
        }
        self.buffers.push(OutputBuffer::new(id.clone()));
        proof {
            lemma_push_fresh(old(self)@.names(), id@);
            assert(self@.names() =~= old(self)@.names().push(id@));
            assert(self@.buffers =~= old(self)@.buffers.push(BufferView::fresh(id@)));
            assert forall|i: int| 0 <= i < self.buffers@.len() implies (#[trigger] self.buffers@[i]).wf() by {
                if i < old(self).buffers@.len() {
                    assert(self.buffers@[i] == old(self).buffers@[i]);
                }
            }
        }
        true
    }

    /// Appends `page` to the buffer named `id` and returns its token. A
    /// complete buffer ignores the page (`Ok(None)`); a missing buffer is
    /// `NotFound`.
    pub fn enqueue(&mut self, id: &BufferId, page: Page) -> (token: Result<Option<u64>, WorkerError>)
        requires
            old(self).wf(),
            old(self)@.has_room(id@),
        ensures
            final(self).wf(),
            final(self)@ == old(self)@.enqueue(id@, page@),
            final(self)@.names() == old(self)@.names(),
            match old(self)@.index_of(id@) {
                None => token == Err::<Option<u64>, WorkerError>(
                    WorkerError::NotFound(Missing::Buffer),
                ),
                Some(i) => if old(self)@.buffers[i].complete {
                    token == Ok::<Option<u64>, WorkerError>(None)
                } else {
                    token == Ok::<Option<u64>, WorkerError>(Some(old(self)@.buffers[i].high as u64))
                },
            },
    {
        let i = match self.find(id) {
            Some(i) => i,
            None => {
                return Err(WorkerError::NotFound(Missing::Buffer));
            },
        };
        let token = self.buffers[i].enqueue(page);
        proof {
            self.lemma_replaced(old(self), i as int);
        }
        Ok(token)
    }

    /// After the buffer at `i` changed in a way that kept its name and its
    /// invariant, the manager is the old one with that buffer replaced.
    proof fn lemma_replaced(&self, before: &OutputBufferManager, i: int)
        requires
            before.wf(),
            0 <= i < before.buffers@.len(),
            self.buffers@.len() == before.buffers@.len(),
            self.buffers@[i].wf(),
            self.buffers@[i]@.id == before.buffers@[i]@.id,
            forall|j: int| 0 <= j < before.buffers@.len() && j != i ==> self.buffers@[j] == before.buffers@[j],
        ensures
            self.wf(),
            self@ == before@.with_buffer(i, self.buffers@[i]@),
            self@.names() == before@.names(),
    {
        assert(self@.names() =~= before@.names());
        assert(self@.buffers =~= before@.buffers.update(i, self.buffers@[i]@));
        assert forall|j: int| 0 <= j < self.buffers@.len() implies (#[trigger] self.buffers@[j]).wf() by {
            if j != i {
                assert(self.buffers@[j] == before.buffers@[j]);
            }
        }
    }

    /// Marks the buffer named `id` complete.
    pub fn mark_complete(&mut self, id: &BufferId) -> (done: Result<(), WorkerError>)
        requires
            old(self).wf(),
        ensures
            final(self).wf(),
            final(self)@ == old(self)@.mark_complete(id@),
            final(self)@.names() == old(self)@.names(),
            match old(self)@.index_of(id@) {
                Some(_) => done == Ok::<(), WorkerError>(()),
                None => done == Err::<(), WorkerError>(WorkerError::NotFound(Missing::Buffer)),
            },
    {
        let i = match self.find(id) {
            Some(i) => i,
            None => {
                return Err(WorkerError::NotFound(Missing::Buffer));
            },
        };
        self.buffers[i].mark_complete();
        proof {
            self.lemma_replaced(old(self), i as int);
        }
        Ok(())
    }

    /// Marks every buffer complete.
    pub fn complete_all(&mut self)
        requires
            old(self).wf(),
        ensures
            final(self).wf(),
            final(self)@ == old(self)@.complete_all(),
            final(self)@.names() == old(self)@.names(),
    {
        let mut i: usize = 0;
        while i < self.buffers.len()
            invariant
                i <= self.buffers@.len(),
                self.buffers@.len() == old(self).buffers@.len(),
                forall|j: int| 0 <= j < self.buffers@.len() ==> (#[trigger] self.buffers@[j]).wf(),
                forall|j: int| 0 <= j < i ==> (#[trigger] self.buffers@[j])@ == old(self).buffers@[j]@.mark_complete(),
                forall|j: int| i <= j < self.buffers@.len() ==> self.buffers@[j] == old(self).buffers@[j],
            decreases self.buffers@.len() - i,
        {
            self.buffers[i].mark_complete();
            i = i + 1;
        }
        proof {
            assert(self@.buffers =~= old(self)@.complete_all().buffers);
            assert(self@.names() =~= old(self)@.names());
        }
    }

    /// Answers a pull at `token` from the buffer named `id`.
    pub fn get(&self, id: &BufferId, token: u64) -> (answer: Result<
        Batch,
        WorkerError,
    >)
        requires
            self.wf(),
        ensures
            match self@.get(id@, token as nat) {
                Ok(batch) => answer matches Ok(b) && b@ == batch,
                Err(e) => answer == Err::<Batch, WorkerError>(e),
            },
    {
        match self.find(id) {
            Some(i) => self.buffers[i].get(token),
            None => Err(WorkerError::NotFound(Missing::Buffer)),
        }
    }

    /// One step of a long poll at `token` on the buffer named `id`.
    pub fn poll(&self, id: &BufferId, token: u64, timed_out: bool) -> (step: Result<
        PollStep,
        WorkerError,
    >)
        requires
            self.wf(),
        ensures
            match self@.get(id@, token as nat) {
                Ok(batch) => if self@.awaits(id@, token as nat) && !timed_out {
                    step matches Ok(PollStep::Wait)
                } else {
                    step matches Ok(PollStep::Reply(b)) && b@ == batch
                },
                Err(e) => step matches Err(err) && err == e,
            },
    {
        match self.find(id) {
            Some(i) => self.buffers[i].poll(token, timed_out),
            None => Err(WorkerError::NotFound(Missing::Buffer)),
        }
    }

    /// Acknowledges the buffer named `id` up to `upto`, and releases the
    /// memory of the pages that this evicts.
    pub fn acknowledge(
        &mut self,
        id: &BufferId,
        upto: u64,
        accountant: &mut MemoryPoolAccountant,
    ) -> (done: Result<(), WorkerError>)
        requires
            old(self).wf(),
            old(accountant).wf(),
        ensures
            final(self).wf(),
            final(accountant).wf(),
            final(self)@ == old(self)@.acknowledge(id@, upto as nat),
            final(self)@.names() == old(self)@.names(),
            match old(self)@.index_of(id@) {
                Some(i) => done == Ok::<(), WorkerError>(()) && final(accountant)@ == release_pages(
                    old(accountant)@,
                    old(self)@.buffers[i].evicted(upto as nat),
                ),
                None => done == Err::<(), WorkerError>(WorkerError::NotFound(Missing::Buffer))
                    && final(accountant)@ == old(accountant)@,
            },
    {
        let i = match self.find(id) {
            Some(i) => i,
            None => {
                return Err(WorkerError::NotFound(Missing::Buffer));
            },
        };
        let evicted = self.buffers[i].acknowledge(upto);
        proof {
            self.lemma_replaced(old(self), i as int);
        }
        release_page_charges(accountant, &evicted);
        Ok(())
    }

    /// Removes the buffer named `id`, whatever has been acknowledged, and
    /// releases the memory of the pages it still held.
    pub fn destroy(&mut self, id: &BufferId, accountant: &mut MemoryPoolAccountant) -> (done: Result<
        (),
        WorkerError,
    >)
        requires
            old(self).wf(),
            old(accountant).wf(),
        ensures
            final(self).wf(),
            final(accountant).wf(),
            final(self)@ == old(self)@.destroy(id@),
            final(self)@.index_of(id@) is None,
            match old(self)@.index_of(id@) {
                Some(i) => done == Ok::<(), WorkerError>(()) && final(accountant)@ == release_pages(
                    old(accountant)@,
                    old(self)@.buffers[i].pages,
                ),
                None => done == Err::<(), WorkerError>(WorkerError::NotFound(Missing::Buffer))
                    && final(accountant)@ == old(accountant)@,
            },
    {
        let i = match self.find(id) {
            Some(i) => i,
            None => {
                return Err(WorkerError::NotFound(Missing::Buffer));
            },
        };
        let buffer = self.buffers.remove(i);
        proof {
            let before = old(self)@;
            lemma_remove_distinct(before.names(), i as int);
            assert(self@.names() =~= before.names().remove(i as int));
            assert(self@.buffers =~= before.buffers.remove(i as int));
            assert forall|j: int| 0 <= j < self.buffers@.len() implies (#[trigger] self.buffers@[j]).wf() by {
                if j < i {
                    assert(self.buffers@[j] == old(self).buffers@[j]);
                } else {
                    assert(self.buffers@[j] == old(self).buffers@[j + 1]);
                }
            }
            lemma_position_stands(before.names(), id@);
        }
        let pages = buffer.into_pages();
        release_page_charges(accountant, &pages);
        Ok(())
    }

    /// Removes every buffer and releases the memory of all their pages.
    pub fn destroy_all(&mut self, accountant: &mut MemoryPoolAccountant)
        requires
            old(self).wf(),
            old(accountant).wf(),
        ensures
            final(self).wf(),
            final(accountant).wf(),
            final(self)@.buffers.len() == 0,
            final(accountant)@ == release_buffers(old(accountant)@, old(self)@.buffers),
    {
        let ghost all = old(self)@.buffers;
        let mut rest: Vec<OutputBuffer> = Vec::new();
        std::mem::swap(&mut self.buffers, &mut rest);
        let mut i: usize = 0;
        while i < rest.len()
            invariant
                i <= rest@.len(),
                accountant.wf(),
                self.buffers@.len() == 0,
                rest@ == old(self).buffers@,
                all == old(self)@.buffers,
                forall|j: int| 0 <= j < rest@.len() ==> (#[trigger] rest@[j]).wf(),
                accountant@ == release_buffers(old(accountant)@, all.take(i as int)),
            decreases rest@.len() - i,
        {
            proof {
                assert(all.take(i + 1).drop_last() =~= all.take(i as int));
                assert(all.take(i + 1).last() == rest@[i as int]@);
            }
            let held = rest[i].retained();
            release_page_charges(accountant, held);
            i = i + 1;
        }
        proof {
            assert(all.take(i as int) =~= all);
            assert(self@.names() =~= Seq::<Seq<char>>::empty());
        }
    }

    /// The report on every buffer, in the order of their creation.
    pub fn infos(&self) -> (infos: Vec<BufferInfo>)
        requires
            self.wf(),
        ensures
            info_views(infos@) == self@.infos(),
    {
        let mut infos: Vec<BufferInfo> = Vec::new();
        let mut i: usize = 0;
        while i < self.buffers.len()
            invariant
                i <= self.buffers@.len(),
                infos@.len() == i,
                forall|j: int| 0 <= j < i ==> (#[trigger] infos@[j])@ == self.buffers@[j]@.info(),
            decreases self.buffers@.len() - i,
        {
            let b = &self.buffers[i];
            infos.push(
                BufferInfo {
                    id: b.id().clone(),
                    low_watermark: b.low_watermark(),
                    high_watermark: b.high_watermark(),
                    complete: b.is_complete(),
                },
            );
            i = i + 1;
        }
        proof {
            assert(info_views(infos@) =~= self@.infos());
        }
        infos
    }
}

} // verus!
