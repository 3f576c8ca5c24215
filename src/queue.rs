use vstd::prelude::*;

verus! {

/// The model of a queue: every message published so far, in order, and
/// whether the queue has been shut down. The message with cursor `k` is
/// `log[k - 1]`; the current cursor is the number of messages.
pub struct QueueView<T> {
    pub log: Seq<T>,
    pub closed: bool,
}

/// What a subscriber at some cursor gets.
pub enum PollView<T> {
    /// The new cursor and every message after the subscriber's cursor.
    Ready(u32, Seq<T>),
    /// Nothing newer yet: wait for the next publish.
    Pending,
    /// The queue was shut down.
    Disconnected,
}

pub open spec fn spec_publish<T>(q: QueueView<T>, m: T) -> QueueView<T> {
    QueueView { log: q.log.push(m), ..q }
}

pub open spec fn spec_poll<T>(q: QueueView<T>, since: u32) -> PollView<T> {
    if q.closed {
        PollView::Disconnected
    } else if (since as int) < q.log.len() {
        PollView::Ready(q.log.len() as u32, q.log.subrange(since as int, q.log.len() as int))
    } else {
        PollView::Pending
    }
}

/// Publishing `ms` in order, with the cursor each publish returned.
pub open spec fn publish_all<T>(q: QueueView<T>, ms: Seq<T>) -> (QueueView<T>, Seq<u32>)
    decreases ms.len(),
{
    if ms.len() == 0 {
        (q, Seq::empty())
    } else {
        let (r, cs) = publish_all(q, ms.drop_last());
        (spec_publish(r, ms.last()), cs.push((r.log.len() + 1) as u32))
    }
}

/// The result of polling a queue.
pub enum Poll<'a, T> {
    Ready(u32, &'a [T]),
    Pending,
    Disconnected,
}

/// An append-only log of messages, indexed by cursor.
pub struct MessageQueue<T> {
    messages: Vec<T>,
    closed: bool,
}

impl<T> View for MessageQueue<T> {
    type V = QueueView<T>;

    closed spec fn view(&self) -> QueueView<T> {
        QueueView { log: self.messages@, closed: self.closed }
    }
}

impl<T> MessageQueue<T> {
    /// Every message has a cursor that fits in `u32`.
    pub open spec fn wf(&self) -> bool {
        self@.log.len() <= u32::MAX
    }

    pub fn new() -> (r: MessageQueue<T>)
        ensures
            r.wf(),
            r@.log.len() == 0,
            !r@.closed,
    {
        MessageQueue { messages: Vec::new(), closed: false }
    }

    /// The cursor of the newest message; 0 before the first publish.
    pub fn cursor(&self) -> (r: u32)
        requires
            self.wf(),
        ensures
            r == self@.log.len(),
    {
        self.messages.len() as u32
    }

    /// Appends a message and returns its cursor, one past the previous one;
    /// `None`, with nothing changed, once every cursor has been used.
    pub fn publish(&mut self, m: T) -> (r: Option<u32>)
        requires
            old(self).wf(),
        ensures
            final(self).wf(),
            r is None <==> old(self)@.log.len() == u32::MAX,
            r is None ==> final(self)@ == old(self)@,
            r matches Some(c) ==> c == old(self)@.log.len() + 1 && final(self)@ == spec_publish(
                old(self)@,
                m,
            ),
    {
        if self.messages.len() < u32::MAX as usize {
            self.messages.push(m);
            Some(self.messages.len() as u32)
        } else {
            None
        }
    }

    /// Messages after cursor `since`, all of them at once; `Pending` when
    /// there are none yet, `Disconnected` after shutdown.
    pub fn poll(&self, since: u32) -> (r: Poll<'_, T>)
        requires
            self.wf(),
        ensures
            r is Pending <==> spec_poll(self@, since) is Pending,
            r is Disconnected <==> spec_poll(self@, since) is Disconnected,
            r matches Poll::Ready(c, ms) ==> spec_poll(self@, since) == PollView::Ready(c, ms@)
                && c == self@.log.len(),
    {
        if self.closed {
            Poll::Disconnected
        } else if (since as usize) < self.messages.len() {
            let all = self.messages.as_slice();
            let ms = vstd::slice::slice_subrange(all, since as usize, self.messages.len());
            Poll::Ready(self.messages.len() as u32, ms)
        } else {
            Poll::Pending
        }
    }

    /// The message with cursor `c`.
    pub fn message(&self, c: u32) -> (r: &T)
        requires
            self.wf(),
            1 <= c <= self@.log.len(),
        ensures
            *r == self@.log[c - 1],
    {
        &self.messages[(c - 1) as usize]
    }

    /// Shuts the queue down: every later poll reports `Disconnected`.
    pub fn close(&mut self)
        requires
            old(self).wf(),
        ensures
            final(self).wf(),
            final(self)@ == (QueueView { closed: true, ..old(self)@ }),
    {
        self.closed = true;
    }
}

/// Publishing into a queue at cursor `c` hands out the cursors `c + 1`,
/// `c + 2`, ... in order, with no gap and no repeat, and the message with
/// each cursor is the one published with it.
pub proof fn cursors_are_consecutive<T>(q: QueueView<T>, ms: Seq<T>)
    requires
        q.log.len() + ms.len() <= u32::MAX,
    ensures
        publish_all(q, ms).1.len() == ms.len(),
        publish_all(q, ms).0.log == q.log + ms,
        forall|k: int| 0 <= k < ms.len() ==> #[trigger] publish_all(q, ms).1[k] == q.log.len() + k + 1,
        forall|k: int|
            0 <= k < ms.len() ==> publish_all(q, ms).0.log[publish_all(q, ms).1[k] - 1] == #[trigger] ms[k],
    decreases ms.len(),
{
    if ms.len() > 0 {
        cursors_are_consecutive(q, ms.drop_last());
        assert(q.log + ms =~= (q.log + ms.drop_last()).push(ms.last()));
        let (r, cs) = publish_all(q, ms.drop_last());
        assert forall|k: int| 0 <= k < ms.len() implies #[trigger] publish_all(q, ms).1[k] == q.log.len() + k + 1 by {
            if k < ms.len() - 1 {
                assert(publish_all(q, ms).1[k] == cs[k]);
            }
        }
        assert forall|k: int| 0 <= k < ms.len() implies publish_all(q, ms).0.log[publish_all(q, ms).1[k] - 1] == #[trigger] ms[k] by {
            assert(publish_all(q, ms).1[k] == q.log.len() + k + 1);
        }
    }
}

/// A subscriber waiting at the current cursor `c` gets, after the next
/// publish, exactly that message and the cursor `c + 1`.
pub proof fn next_publish_reaches_waiter<T>(q: QueueView<T>, m: T)
    requires
        !q.closed,
        q.log.len() < u32::MAX,
    ensures
        spec_poll(q, q.log.len() as u32) is Pending,
        spec_poll(spec_publish(q, m), q.log.len() as u32) == PollView::Ready(
            (q.log.len() + 1) as u32,
            seq![m],
        ),
{
    let p = spec_publish(q, m);
    assert(p.log.subrange(q.log.len() as int, p.log.len() as int) =~= seq![m]);
}

/// A subscriber that polls at `since`, then polls again at the cursor it was
/// given, after any further publishes, sees every message after `since`
/// exactly once and in publish order.
pub proof fn batches_keep_order<T>(q: QueueView<T>, since: u32, later: Seq<T>)
    requires
        !q.closed,
        q.log.len() + later.len() <= u32::MAX,
        (since as int) < q.log.len(),
        later.len() > 0,
    ensures
        spec_poll(q, since) matches PollView::Ready(c, first) && spec_poll(
            publish_all(q, later).0,
            c,
        ) matches PollView::Ready(c2, second) && c2 == c + later.len() && first + second
            == publish_all(q, later).0.log.subrange(since as int, c2 as int) && second == later,
{
    cursors_are_consecutive(q, later);
    lemma_publish_all_open(q, later);
    let all = q.log + later;
    assert(all.subrange(since as int, q.log.len() as int) =~= q.log.subrange(
        since as int,
        q.log.len() as int,
    ));
    assert(all.subrange(q.log.len() as int, all.len() as int) =~= later);
    assert(all.subrange(since as int, all.len() as int) =~= all.subrange(
        since as int,
        q.log.len() as int,
    ) + all.subrange(q.log.len() as int, all.len() as int));
}

proof fn lemma_publish_all_open<T>(q: QueueView<T>, ms: Seq<T>)
    ensures
        publish_all(q, ms).0.closed == q.closed,
    decreases ms.len(),
{
    if ms.len() > 0 {
        lemma_publish_all_open(q, ms.drop_last());
    }
}

} // verus!
