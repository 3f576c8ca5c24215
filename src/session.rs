use vstd::prelude::*;

use crate::patch::{same_changes, AppliedPatch, PatchSet, PatchUpdate, PropertyChange, Variant};
use crate::queue::{
    next_publish_reaches_waiter, spec_poll, spec_publish, MessageQueue, Poll, PollView, QueueView,
};
use crate::tree::{
    apply_patch, children_prefix, is_live, tree_wf, patch_record, read_slots, shows, shows_all, slot_of, InstanceSnapshot,
    InstanceTree, NodeView,
};

verus! {

pub fn copy_ids(v: &Vec<u128>) -> (r: Vec<u128>)
    ensures
        r@ == v@,
{
    let mut r: Vec<u128> = Vec::new();
    let mut i: usize = 0;
    while i < v.len()
        invariant
            i <= v.len(),
            r@ == v@.subrange(0, i as int),
        decreases v.len() - i,
    {
        r.push(v[i]);
        i = i + 1;
        assert(r@ =~= v@.subrange(0, i as int));
    }
    assert(r@ =~= v@);
    r
}

fn copy_place_ids(v: &Option<Vec<u64>>) -> (r: Option<Vec<u64>>)
    ensures
        r is None <==> v is None,
        r is Some ==> r->Some_0@ == v->Some_0@,
{
    match v {
        None => None,
        Some(ids) => {
            let mut r: Vec<u64> = Vec::new();
            let mut i: usize = 0;
            while i < ids.len()
                invariant
                    i <= ids.len(),
                    r@ == ids@.subrange(0, i as int),
                decreases ids.len() - i,
            {
                r.push(ids[i]);
                i = i + 1;
                assert(r@ =~= ids@.subrange(0, i as int));
            }
            assert(r@ =~= ids@);
            Some(r)
        },
    }
}

fn copy_optional_string(s: &Option<String>) -> (r: Option<String>)
    ensures
        r == *s,
{
    match s {
        Some(t) => Some(t.clone()),
        None => None,
    }
}

fn copy_changes(v: &Vec<PropertyChange>) -> (r: Vec<PropertyChange>)
    ensures
        same_changes(r@, v@),
{
    let mut r: Vec<PropertyChange> = Vec::new();
    let mut i: usize = 0;
    while i < v.len()
        invariant
            i <= v.len(),
            same_changes(r@, v@.subrange(0, i as int)),
        decreases v.len() - i,
    {
        let value: Option<Variant> = match &v[i].1 {
            Some(x) => Some(x.copy_value()),
            None => None,
        };
        let ghost prev = r@;
        r.push((v[i].0.clone(), value));
        proof {
            let sub = v@.subrange(0, i + 1);
            assert forall|j: int| 0 <= j < r@.len() implies (#[trigger] r@[j]).0@ == sub[j].0@
                && crate::patch::option_view(r@[j].1) == crate::patch::option_view(sub[j].1) by {
                if j < prev.len() {
                    assert(r@[j] == prev[j]);
                    assert(sub[j] == v@.subrange(0, i as int)[j]);
                }
            }
        }
        i = i + 1;
    }
    assert(v@.subrange(0, v@.len() as int) =~= v@);
    r
}

/// `a` carries the same changes as `b`.
pub open spec fn same_update(a: PatchUpdate, b: PatchUpdate) -> bool {
    &&& a.id == b.id
    &&& a.changed_name == b.changed_name
    &&& a.changed_class_name == b.changed_class_name
    &&& same_changes(a.changed_properties@, b.changed_properties@)
    &&& a.changed_metadata is Some <==> b.changed_metadata is Some
    &&& a.changed_metadata is Some ==> a.changed_metadata->Some_0.same_as(
        &b.changed_metadata->Some_0,
    )
}

pub fn copy_update(u: &PatchUpdate) -> (r: PatchUpdate)
    ensures
        same_update(r, *u),
{
    PatchUpdate {
        id: u.id,
        changed_name: copy_optional_string(&u.changed_name),
        changed_class_name: copy_optional_string(&u.changed_class_name),
        changed_properties: copy_changes(&u.changed_properties),
        changed_metadata: match &u.changed_metadata {
            Some(m) => Some(m.copy_metadata()),
            None => None,
        },
    }
}

/// One change record as a subscriber receives it: the removed ids, copies of
/// the added instances and of their descendants as the tree now holds them,
/// and the updates.
pub struct SubscribeMessage {
    pub removed: Vec<u128>,
    pub added: Vec<InstanceSnapshot>,
    pub updated: Vec<PatchUpdate>,
}

/// `out` reports the record `rec` against the tree `v`.
pub open spec fn reports(v: Seq<NodeView>, rec: AppliedPatch, out: SubscribeMessage) -> bool {
    &&& out.removed@ == rec.removed@
    &&& shows_all(v, read_slots(v, rec.added@), out.added@)
    &&& out.updated@.len() == rec.updated@.len()
    &&& forall|k: int| 0 <= k < out.updated@.len() ==> same_update(
        #[trigger] out.updated@[k],
        rec.updated@[k],
    )
}

/// What a subscriber gets from the session.
pub enum SubscribeOutcome {
    /// The new cursor and one message per change record after the cursor
    /// given, in publish order.
    Ready(u32, Vec<SubscribeMessage>),
    /// Nothing newer yet: wait for the next change.
    Pending,
    /// The session is shutting down.
    Disconnected,
}

/// A point-in-time read: the instances and the cursor of the last change
/// they include, taken together.
pub struct ReadResult {
    pub session_id: u128,
    pub message_cursor: u32,
    pub instances: Vec<InstanceSnapshot>,
}

/// The session: it owns the tree and the queue of change records, and is
/// the one place where the tree changes.
pub struct ServeSession {
    tree: InstanceTree,
    queue: MessageQueue<AppliedPatch>,
    session_id: u128,
    project_name: String,
    place_ids: Option<Vec<u64>>,
}

impl ServeSession {
    pub closed spec fn tree_view(&self) -> Seq<NodeView> {
        self.tree@
    }

    pub closed spec fn queue_view(&self) -> QueueView<AppliedPatch> {
        self.queue@
    }

    pub closed spec fn id_view(&self) -> u128 {
        self.session_id
    }

    pub closed spec fn name_view(&self) -> Seq<char> {
        self.project_name@
    }

    /// The places the project may be served into, when it names any.
    pub closed spec fn places_view(&self) -> Option<Seq<u64>> {
        match self.place_ids {
            Some(ids) => Some(ids@),
            None => None,
        }
    }

    /// The tree is well formed (a live root in slot 0, no cycles, unique
    /// ids) and every change record has a `u32` cursor.
    pub open spec fn wf(&self) -> bool {
        &&& tree_wf(self.tree_view())
        &&& self.queue_view().log.len() <= u32::MAX
    }

    pub fn new(
        session_id: u128,
        project_name: String,
        root_id: u128,
        root_class_name: String,
        root_name: String,
        place_ids: Option<Vec<u64>>,
    ) -> (r: ServeSession)
        requires
            root_id != 0,
        ensures
            r.wf(),
            r.id_view() == session_id,
            r.name_view() == project_name@,
            r.places_view() == (match place_ids {
                Some(ids) => Some(ids@),
                None => None::<Seq<u64>>,
            }),
            r.tree_view().len() == 1,
            r.tree_view()[0].id == root_id,
            r.tree_view()[0].class_name == root_class_name@,
            r.tree_view()[0].name == root_name@,
            r.queue_view().log.len() == 0,
            !r.queue_view().closed,
    {
        ServeSession {
            tree: InstanceTree::new(root_id, root_class_name, root_name),
            queue: MessageQueue::new(),
            session_id,
            project_name,
            place_ids,
        }
    }

    pub fn serve_place_ids(&self) -> (r: Option<Vec<u64>>)
        ensures
            r is None <==> self.places_view() is None,
            r is Some ==> r->Some_0@ == self.places_view()->Some_0,
    {
        copy_place_ids(&self.place_ids)
    }

    pub fn session_id(&self) -> (r: u128)
        ensures
            r == self.id_view(),
    {
        self.session_id
    }

    pub fn project_name(&self) -> (r: &String)
        ensures
            r@ == self.name_view(),
    {
        &self.project_name
    }

    pub fn root_id(&self) -> (r: u128)
        requires
            self.wf(),
        ensures
            r == self.tree_view()[0].id,
    {
        self.tree.root_id()
    }

    /// The cursor of the last change.
    pub fn cursor(&self) -> (r: u32)
        requires
            self.wf(),
        ensures
            r == self.queue_view().log.len(),
    {
        self.queue.cursor()
    }

    /// The one way the tree changes: applies the whole patch, publishes what
    /// it changed and returns the new cursor, one past the previous one.
    /// Once every cursor has been used it changes nothing and returns `None`.
    pub fn mutate(&mut self, patch: PatchSet) -> (r: Option<u32>)
        requires
            old(self).wf(),
        ensures
            final(self).wf(),
            final(self).id_view() == old(self).id_view(),
            final(self).name_view() == old(self).name_view(),
            final(self).places_view() == old(self).places_view(),
            r is None <==> old(self).queue_view().log.len() == u32::MAX,
            r is None ==> final(self).tree_view() == old(self).tree_view() && final(self).queue_view()
                == old(self).queue_view(),
            r matches Some(c) ==> {
                &&& c == old(self).queue_view().log.len() + 1
                &&& final(self).tree_view() == apply_patch(old(self).tree_view(), patch)
                &&& final(self).queue_view().closed == old(self).queue_view().closed
                &&& final(self).queue_view().log.len() == old(self).queue_view().log.len() + 1
                &&& final(self).queue_view().log.drop_last() == old(self).queue_view().log
                &&& patch_record(
                    old(self).tree_view(),
                    patch,
                    final(self).queue_view().log.last(),
                )
            },
    {
        if self.queue.cursor() == u32::MAX {
            return None;
        }
        let record = self.tree.apply(patch);
        let r = self.queue.publish(record);
        proof {
            let q = self.queue@;
            assert(q.log.drop_last() =~= old(self).queue@.log);
        }
        r
    }

    /// The instance `id`, or `None` when the tree holds no such instance.
    pub fn get(&self, id: u128) -> (r: Option<InstanceSnapshot>)
        requires
            self.wf(),
        ensures
            r is None <==> !is_live(self.tree_view(), id),
            r matches Some(s) ==> shows(self.tree_view(), slot_of(self.tree_view(), id), s),
    {
        self.tree.get(id)
    }

    /// The ids of the live children of `id`, in the order they were added.
    pub fn children(&self, id: u128) -> (r: Vec<u128>)
        requires
            self.wf(),
        ensures
            !is_live(self.tree_view(), id) ==> r@.len() == 0,
            is_live(self.tree_view(), id) ==> r@ == children_prefix(
                self.tree_view(),
                slot_of(self.tree_view(), id),
                self.tree_view().len() as int,
            ),
    {
        self.tree.children(id)
    }

    /// The instances `ids` and their descendants, with the cursor of the
    /// last change they include; unknown ids are skipped.
    pub fn read(&self, ids: &Vec<u128>) -> (r: ReadResult)
        requires
            self.wf(),
        ensures
            r.session_id == self.id_view(),
            r.message_cursor == self.queue_view().log.len(),
            shows_all(self.tree_view(), read_slots(self.tree_view(), ids@), r.instances@),
    {
        ReadResult {
            session_id: self.session_id,
            message_cursor: self.queue.cursor(),
            instances: self.tree.read(ids),
        }
    }

    fn report(&self, rec: &AppliedPatch) -> (r: SubscribeMessage)
        requires
            self.wf(),
        ensures
            reports(self.tree_view(), *rec, r),
    {
        let mut updated: Vec<PatchUpdate> = Vec::new();
        let mut k: usize = 0;
        while k < rec.updated.len()
            invariant
                k <= rec.updated@.len(),
                updated@.len() == k,
                forall|j: int| 0 <= j < k ==> same_update(#[trigger] updated@[j], rec.updated@[j]),
            decreases rec.updated@.len() - k,
        {
            updated.push(copy_update(&rec.updated[k]));
            k = k + 1;
        }
        SubscribeMessage {
            removed: copy_ids(&rec.removed),
            added: self.tree.read(&rec.added),
            updated,
        }
    }

    /// `r` is what a subscriber at cursor `since` gets: `Pending` or
    /// `Disconnected` as the queue says, or the current cursor with one
    /// report per change record after `since`, in publish order.
    pub open spec fn subscribed(&self, since: u32, r: SubscribeOutcome) -> bool {
        &&& r is Pending <==> spec_poll(self.queue_view(), since) is Pending
        &&& r is Disconnected <==> spec_poll(self.queue_view(), since) is Disconnected
        &&& r matches SubscribeOutcome::Ready(c, ms) ==> {
            &&& spec_poll(self.queue_view(), since) is Ready
            &&& c == self.queue_view().log.len()
            &&& ms@.len() == c - since
            &&& forall|k: int|
                0 <= k < ms@.len() ==> reports(
                    self.tree_view(),
                    self.queue_view().log[since + k],
                    #[trigger] ms@[k],
                )
        }
    }

    /// Every change after cursor `since`, in publish order; `Pending` when
    /// there is none yet, `Disconnected` after shutdown.
    pub fn subscribe(&self, since: u32) -> (r: SubscribeOutcome)
        requires
            self.wf(),
        ensures
            self.subscribed(since, r),
    {
        match self.queue.poll(since) {
            Poll::Ready(c, records) => {
                proof {
                    let q = self.queue@;
                    assert(spec_poll(q, since) == PollView::Ready(c, records@));
                    assert((since as int) < q.log.len());
                    assert(c == q.log.len());
                }
                let mut out: Vec<SubscribeMessage> = Vec::new();
                let mut k: usize = 0;
                while k < records.len()
                    invariant
                        self.wf(),
                        records@ == self.queue_view().log.subrange(since as int, c as int),
                        c == self.queue_view().log.len(),
                        since < c,
                        k <= records@.len(),
                        out@.len() == k,
                        forall|j: int|
                            0 <= j < k ==> reports(
                                self.tree_view(),
                                self.queue_view().log[since + j],
                                #[trigger] out@[j],
                            ),
                    decreases records@.len() - k,
                {
                    let m = self.report(&records[k]);
                    out.push(m);
                    k = k + 1;
                }
                SubscribeOutcome::Ready(c, out)
            },
            Poll::Pending => SubscribeOutcome::Pending,
            Poll::Disconnected => SubscribeOutcome::Disconnected,
        }
    }

    /// Shuts the change feed down: every later subscribe is `Disconnected`.
    pub fn close(&mut self)
        requires
            old(self).wf(),
        ensures
            final(self).wf(),
            final(self).tree_view() == old(self).tree_view(),
            final(self).id_view() == old(self).id_view(),
            final(self).name_view() == old(self).name_view(),
            final(self).places_view() == old(self).places_view(),
            final(self).queue_view().closed,
            final(self).queue_view().log == old(self).queue_view().log,
    {
        self.queue.close();
    }
}

/// A subscriber waiting at the cursor a mutate started from is pending
/// before it and, after it, gets exactly the record that mutate published,
/// with the next cursor. The requirements are what `mutate` ensures of the
/// change log when it succeeds.
pub proof fn waiter_sees_next_change(
    before: QueueView<AppliedPatch>,
    after: QueueView<AppliedPatch>,
)
    requires
        !before.closed,
        after.closed == before.closed,
        after.log.len() == before.log.len() + 1,
        after.log.drop_last() == before.log,
        after.log.len() <= u32::MAX,
    ensures
        spec_poll(before, before.log.len() as u32) is Pending,
        spec_poll(after, before.log.len() as u32) == PollView::Ready(
            (before.log.len() + 1) as u32,
            seq![after.log.last()],
        ),
{
    assert(after == spec_publish(before, after.log.last())) by {
        assert(after.log =~= before.log.push(after.log.last()));
    }
    next_publish_reaches_waiter(before, after.log.last());
}

} // verus!
