use vstd::prelude::*;

use crate::patch::{
    apply_property_changes, copy_properties, map_changes, props_map, AddedInstance, AppliedPatch,
    Metadata, PatchSet, PatchUpdate, Variant, VariantView,
};

verus! {

/// The model of one arena slot.
pub struct NodeView {
    pub id: u128,
    pub parent: usize,
    pub alive: bool,
    pub class_name: Seq<char>,
    pub name: Seq<char>,
    pub properties: Map<Seq<char>, VariantView>,
    pub relevant_paths: Seq<String>,
    pub ignore_unknown_instances: bool,
}

/// One arena slot. A removed instance stays in the arena, dead, so that its
/// id is never given to another instance.
pub struct Node {
    pub id: u128,
    pub parent: usize,
    pub alive: bool,
    pub class_name: String,
    pub name: String,
    pub properties: Vec<(String, Variant)>,
    pub metadata: Metadata,
}

impl View for Node {
    type V = NodeView;

    open spec fn view(&self) -> NodeView {
        NodeView {
            id: self.id,
            parent: self.parent,
            alive: self.alive,
            class_name: self.class_name@,
            name: self.name@,
            properties: props_map(self.properties@),
            relevant_paths: self.metadata.relevant_paths@,
            ignore_unknown_instances: self.metadata.ignore_unknown_instances,
        }
    }
}

/// A well-formed arena: slot 0 holds the live root; every other slot names
/// an earlier slot as its parent, so parent links never form a cycle; a live
/// instance has a live parent; no two slots share an id, and none holds 0,
/// the null reference.
pub open spec fn tree_wf(v: Seq<NodeView>) -> bool {
    &&& v.len() >= 1
    &&& forall|i: int| 0 <= i < v.len() ==> (#[trigger] v[i]).id != 0
    &&& v[0].alive
    &&& v[0].parent == 0
    &&& forall|i: int| 0 < i < v.len() ==> (#[trigger] v[i]).parent < i
    &&& forall|i: int| 0 < i < v.len() && (#[trigger] v[i]).alive ==> v[v[i].parent as int].alive
    &&& forall|i: int, j: int|
        0 <= i < v.len() && 0 <= j < v.len() && i != j ==> (#[trigger] v[i]).id != (#[trigger] v[j]).id
}

/// Slot `i` holds the live instance `id`.
pub open spec fn live_at(v: Seq<NodeView>, id: u128, i: int) -> bool {
    0 <= i < v.len() && v[i].alive && v[i].id == id
}

pub open spec fn is_live(v: Seq<NodeView>, id: u128) -> bool {
    exists|i: int| live_at(v, id, i)
}

/// The slot of the live instance `id`.
pub open spec fn slot_of(v: Seq<NodeView>, id: u128) -> int {
    choose|i: int| live_at(v, id, i)
}

/// Some slot, live or dead, has held `id`.
pub open spec fn id_used(v: Seq<NodeView>, id: u128) -> bool {
    exists|i: int| 0 <= i < v.len() && (#[trigger] v[i]).id == id
}

/// Slot `i` lies in the subtree whose root is slot `r`.
pub open spec fn under(v: Seq<NodeView>, r: int, i: int) -> bool
    decreases i,
{
    if i == r {
        true
    } else if i > r && 0 <= v[i].parent < i {
        under(v, r, v[i].parent as int)
    } else {
        false
    }
}

/// The arena after the subtree rooted at slot `r` dies.
pub open spec fn kill(v: Seq<NodeView>, r: int) -> Seq<NodeView> {
    Seq::new(
        v.len(),
        |i: int|
            if under(v, r, i) {
                NodeView { alive: false, ..v[i] }
            } else {
                v[i]
            },
    )
}

/// The removals in order, with the ids that took effect: removing a live
/// instance other than the root kills its subtree; removing anything else
/// changes nothing.
pub open spec fn remove_all(v: Seq<NodeView>, ids: Seq<u128>) -> (Seq<NodeView>, Seq<u128>)
    decreases ids.len(),
{
    if ids.len() == 0 {
        (v, Seq::empty())
    } else {
        let (w, done) = remove_all(v, ids.drop_last());
        let id = ids.last();
        if is_live(w, id) && slot_of(w, id) != 0 {
            (kill(w, slot_of(w, id)), done.push(id))
        } else {
            (w, done)
        }
    }
}

/// The slot for a new instance under slot `p`.
pub open spec fn new_node(a: AddedInstance, p: int) -> NodeView {
    NodeView {
        id: a.id,
        parent: p as usize,
        alive: true,
        class_name: a.class_name@,
        name: a.name@,
        properties: props_map(a.properties@),
        relevant_paths: a.metadata.relevant_paths@,
        ignore_unknown_instances: a.metadata.ignore_unknown_instances,
    }
}

/// An addition takes effect when its id is not the null reference 0 and
/// was never used, its parent is live, and the arena has room.
pub open spec fn can_add(v: Seq<NodeView>, a: AddedInstance) -> bool {
    &&& a.id != 0
    &&& !id_used(v, a.id)
    &&& is_live(v, a.parent)
    &&& v.len() + 1 < usize::MAX
}

/// The additions in order, with the ids that took effect.
pub open spec fn add_all(v: Seq<NodeView>, adds: Seq<AddedInstance>) -> (Seq<NodeView>, Seq<u128>)
    decreases adds.len(),
{
    if adds.len() == 0 {
        (v, Seq::empty())
    } else {
        let (w, done) = add_all(v, adds.drop_last());
        let a = adds.last();
        if can_add(w, a) {
            (w.push(new_node(a, slot_of(w, a.parent))), done.push(a.id))
        } else {
            (w, done)
        }
    }
}

/// One instance after an update.
pub open spec fn updated_node(n: NodeView, u: PatchUpdate) -> NodeView {
    NodeView {
        name: match u.changed_name {
            Some(s) => s@,
            None => n.name,
        },
        class_name: match u.changed_class_name {
            Some(s) => s@,
            None => n.class_name,
        },
        properties: map_changes(n.properties, u.changed_properties@),
        relevant_paths: match u.changed_metadata {
            Some(m) => m.relevant_paths@,
            None => n.relevant_paths,
        },
        ignore_unknown_instances: match u.changed_metadata {
            Some(m) => m.ignore_unknown_instances,
            None => n.ignore_unknown_instances,
        },
        ..n
    }
}

/// The updates in order, with those that reached a live instance.
pub open spec fn update_all(v: Seq<NodeView>, ups: Seq<PatchUpdate>) -> (
    Seq<NodeView>,
    Seq<PatchUpdate>,
)
    decreases ups.len(),
{
    if ups.len() == 0 {
        (v, Seq::empty())
    } else {
        let (w, done) = update_all(v, ups.drop_last());
        let u = ups.last();
        if is_live(w, u.id) {
            let i = slot_of(w, u.id);
            (w.update(i, updated_node(w[i], u)), done.push(u))
        } else {
            (w, done)
        }
    }
}

/// The arena after a whole patch: removals, then additions, then updates.
pub open spec fn apply_patch(v: Seq<NodeView>, p: PatchSet) -> Seq<NodeView> {
    update_all(add_all(remove_all(v, p.removed_instances@).0, p.added_instances@).0, p.updated_instances@).0
}

/// What a patch reports as changed.
pub open spec fn patch_record(v: Seq<NodeView>, p: PatchSet, r: AppliedPatch) -> bool {
    let (w1, removed) = remove_all(v, p.removed_instances@);
    let (w2, added) = add_all(w1, p.added_instances@);
    let (w3, updated) = update_all(w2, p.updated_instances@);
    &&& r.removed@ == removed
    &&& r.added@ == added
    &&& r.updated@ == updated
}

proof fn lemma_live_slot_unique(v: Seq<NodeView>, id: u128, i: int)
    requires
        tree_wf(v),
        live_at(v, id, i),
    ensures
        is_live(v, id),
        slot_of(v, id) == i,
{
    assert(live_at(v, id, i));
    let j = slot_of(v, id);
    assert(live_at(v, id, j));
    assert(v[i].id == v[j].id);
}

proof fn lemma_under_range(v: Seq<NodeView>, r: int, i: int)
    requires
        under(v, r, i),
    ensures
        i >= r,
    decreases i,
{
    if i != r {
        lemma_under_range(v, r, v[i].parent as int);
    }
}

proof fn lemma_kill_wf(v: Seq<NodeView>, r: int)
    requires
        tree_wf(v),
        0 < r < v.len(),
    ensures
        tree_wf(kill(v, r)),
        !kill(v, r)[r].alive,
        forall|i: int| 0 <= i < v.len() ==> (#[trigger] kill(v, r)[i]).id == v[i].id,
        forall|i: int|
            0 <= i < v.len() ==> (#[trigger] kill(v, r)[i]).alive == (v[i].alive && !under(v, r, i)),
{
    let w = kill(v, r);
    assert(!under(v, r, 0));
    assert forall|i: int| 0 < i < w.len() && (#[trigger] w[i]).alive implies w[w[i].parent as int].alive by {
        let p = v[i].parent as int;
        if under(v, r, p) {
            lemma_under_range(v, r, p);
            assert(under(v, r, i));
        }
    }
    assert forall|i: int, j: int|
        0 <= i < w.len() && 0 <= j < w.len() && i != j implies (#[trigger] w[i]).id != (
        #[trigger] w[j]).id by {
        assert(v[i].id != v[j].id);
    }
}

/// The live instance tree: an arena of slots, each naming its parent's slot.
pub struct InstanceTree {
    nodes: Vec<Node>,
}

/// A point-in-time copy of one instance.
pub struct InstanceSnapshot {
    pub id: u128,
    pub parent: Option<u128>,
    pub class_name: String,
    pub name: String,
    pub properties: Vec<(String, Variant)>,
    pub metadata: Metadata,
}

/// `s` is a faithful copy of slot `i`.
pub open spec fn shows(v: Seq<NodeView>, i: int, s: InstanceSnapshot) -> bool {
    &&& s.id == v[i].id
    &&& s.parent == (if i == 0 { None::<u128> } else { Some(v[v[i].parent as int].id) })
    &&& s.class_name@ == v[i].class_name
    &&& s.name@ == v[i].name
    &&& props_map(s.properties@) == v[i].properties
    &&& s.metadata.relevant_paths@ == v[i].relevant_paths
    &&& s.metadata.ignore_unknown_instances == v[i].ignore_unknown_instances
}

/// Slot `c` holds a live child of slot `r`.
pub open spec fn is_child(v: Seq<NodeView>, r: int, c: int) -> bool {
    0 <= r < c < v.len() && v[c].alive && v[c].parent == r
}

/// The pre-order walk of the subtree rooted at slot `r`: `r` itself, then
/// the walk of each child in the order the children were added.
pub open spec fn preorder(v: Seq<NodeView>, r: int) -> Seq<int>
    decreases v.len() - r, v.len() + 1,
{
    if 0 <= r < v.len() {
        seq![r] + subtrees_from(v, r, r + 1)
    } else {
        Seq::empty()
    }
}

/// The walks of the children of slot `r` that sit in slot `j` or later.
pub open spec fn subtrees_from(v: Seq<NodeView>, r: int, j: int) -> Seq<int>
    decreases v.len() - r, v.len() - j,
{
    if 0 <= r < j < v.len() {
        (if is_child(v, r, j) {
            preorder(v, j)
        } else {
            Seq::empty()
        }) + subtrees_from(v, r, j + 1)
    } else {
        Seq::empty()
    }
}

/// The live strict descendants of slot `r`, in pre-order.
pub open spec fn descendant_slots(v: Seq<NodeView>, r: int) -> Seq<int> {
    subtrees_from(v, r, r + 1)
}

/// The slots a read of `ids` reports: for each live id in order, the
/// pre-order walk of its subtree; an unknown id adds nothing.
pub open spec fn read_slots(v: Seq<NodeView>, ids: Seq<u128>) -> Seq<int>
    decreases ids.len(),
{
    if ids.len() == 0 {
        Seq::empty()
    } else {
        let rest = read_slots(v, ids.drop_last());
        let id = ids.last();
        if is_live(v, id) {
            rest + preorder(v, slot_of(v, id))
        } else {
            rest
        }
    }
}

/// The live children of slot `r` among the first `n` slots, in arena order.
pub open spec fn children_prefix(v: Seq<NodeView>, r: int, n: int) -> Seq<u128>
    decreases n,
{
    if n <= 0 {
        Seq::empty()
    } else {
        let rest = children_prefix(v, r, n - 1);
        if v[n - 1].alive && n - 1 != 0 && v[n - 1].parent == r {
            rest.push(v[n - 1].id)
        } else {
            rest
        }
    }
}

/// Each snapshot in `out` is a copy of the slot at the same position.
pub open spec fn shows_all(v: Seq<NodeView>, slots: Seq<int>, out: Seq<InstanceSnapshot>) -> bool {
    &&& out.len() == slots.len()
    &&& forall|m: int| 0 <= m < out.len() ==> #[trigger] shows(v, slots[m], out[m])
}

impl View for InstanceTree {
    type V = Seq<NodeView>;

    closed spec fn view(&self) -> Seq<NodeView> {
        Seq::new(self.nodes@.len(), |i: int| self.nodes@[i]@)
    }
}

impl InstanceTree {
    pub open spec fn wf(&self) -> bool {
        tree_wf(self@)
    }

    /// A tree holding only its root.
    pub fn new(root_id: u128, class_name: String, name: String) -> (r: InstanceTree)
        requires
            root_id != 0,
        ensures
            r.wf(),
            r@.len() == 1,
            r@[0].id == root_id,
            r@[0].class_name == class_name@,
            r@[0].name == name@,
            r@[0].properties == Map::<Seq<char>, VariantView>::empty(),
    {
        let root = Node {
            id: root_id,
            parent: 0,
            alive: true,
            class_name,
            name,
            properties: Vec::new(),
            metadata: Metadata { relevant_paths: Vec::new(), ignore_unknown_instances: false },
        };
        let mut nodes: Vec<Node> = Vec::new();
        nodes.push(root);
        let r = InstanceTree { nodes };
        assert(r@[0].properties =~= Map::<Seq<char>, VariantView>::empty());
        r
    }

    pub fn root_id(&self) -> (r: u128)
        requires
            self.wf(),
        ensures
            r == self@[0].id,
    {
        self.nodes[0].id
    }

    /// The slot of the live instance `id`, if there is one.
    fn find_live(&self, id: u128) -> (r: Option<usize>)
        requires
            self.wf(),
        ensures
            r matches Some(i) ==> live_at(self@, id, i as int) && slot_of(self@, id) == i,
            r is None <==> !is_live(self@, id),
    {
        let mut i: usize = 0;
        while i < self.nodes.len()
            invariant
                self.wf(),
                i <= self.nodes@.len(),
                forall|j: int| 0 <= j < i ==> !live_at(self@, id, j),
            decreases self.nodes@.len() - i,
        {
            if self.nodes[i].alive && self.nodes[i].id == id {
                proof {
                    lemma_live_slot_unique(self@, id, i as int);
                }
                return Some(i);
            }
            i = i + 1;
        }
        None
    }

    /// Whether `id` names a live instance.
    pub fn contains(&self, id: u128) -> (r: bool)
        requires
            self.wf(),
        ensures
            r == is_live(self@, id),
    {
        self.find_live(id).is_some()
    }

    /// Whether some slot, live or dead, has ever held `id`.
    fn has_used(&self, id: u128) -> (r: bool)
        ensures
            r == id_used(self@, id),
    {
        let mut i: usize = 0;
        while i < self.nodes.len()
            invariant
                i <= self.nodes@.len(),
                forall|j: int| 0 <= j < i ==> (#[trigger] self@[j]).id != id,
            decreases self.nodes@.len() - i,
        {
            if self.nodes[i].id == id {
                assert(self@[i as int].id == id);
                return true;
            }
            i = i + 1;
        }
        false
    }

    /// Kills the subtree rooted at slot `r`.
    fn kill_subtree(&mut self, r: usize)
        requires
            old(self).wf(),
            0 < r < old(self)@.len(),
        ensures
            final(self)@ == kill(old(self)@, r as int),
            final(self).wf(),
    {
        let ghost v = self@;
        let mut i: usize = r;
        while i < self.nodes.len()
            invariant
                tree_wf(v),
                0 < r <= i <= self.nodes@.len(),
                self.nodes@.len() == v.len(),
                forall|k: int| 0 <= k < i ==> (#[trigger] self@[k]) == kill(v, r as int)[k],
                forall|k: int| i <= k < v.len() ==> (#[trigger] self@[k]) == v[k],
            decreases self.nodes@.len() - i,
        {
            let p = self.nodes[i].parent;
            proof {
                assert(self@[i as int] == v[i as int]);
                if i > r {
                    assert(v[i as int].parent < i);
                    assert(self@[p as int] == kill(v, r as int)[p as int]);
                    if p < r {
                        assert(!under(v, r as int, p as int));
                    }
                }
            }
            let ghost before = self.nodes@;
            let ghost before_view = self@;
            if i == r || (self.nodes[i].alive && !self.nodes[p].alive) {
                self.nodes[i].alive = false;
            }
            proof {
                assert forall|k: int| 0 <= k < v.len() && k != i implies self.nodes@[k]
                    == before[k] by {}
                assert(self@[i as int] == kill(v, r as int)[i as int]);
                assert forall|k: int| 0 <= k < i + 1 implies (#[trigger] self@[k]) == kill(
                    v,
                    r as int,
                )[k] by {
                    if k != i {
                        assert(self.nodes@[k] == before[k]);
                        assert(before_view[k] == before[k]@);
                        assert(self@[k] == self.nodes@[k]@);
                    }
                }
                assert forall|k: int| i + 1 <= k < v.len() implies (#[trigger] self@[k]) == v[k] by {
                    assert(self.nodes@[k] == before[k]);
                    assert(before_view[k] == before[k]@);
                    assert(self@[k] == self.nodes@[k]@);
                }
            }
            i = i + 1;
        }
        assert(self@ =~= kill(v, r as int));
        proof {
            lemma_kill_wf(v, r as int);
        }
    }

    /// The removals in order; each live instance other than the root dies
    /// with its subtree. Returns the ids that took effect.
    fn remove_instances(&mut self, ids: &Vec<u128>) -> (done: Vec<u128>)
        requires
            old(self).wf(),
        ensures
            final(self).wf(),
            (final(self)@, done@) == remove_all(old(self)@, ids@),
    {
        let mut done: Vec<u128> = Vec::new();
        let mut j: usize = 0;
        while j < ids.len()
            invariant
                self.wf(),
                j <= ids.len(),
                (self@, done@) == remove_all(old(self)@, ids@.subrange(0, j as int)),
            decreases ids.len() - j,
        {
            let id = ids[j];
            proof {
                let next = ids@.subrange(0, j + 1);
                assert(next.drop_last() =~= ids@.subrange(0, j as int));
                assert(next.last() == id);
            }
            match self.find_live(id) {
                Some(r) => {
                    if r != 0 {
                        self.kill_subtree(r);
                        done.push(id);
                    }
                },
                None => {},
            }
            j = j + 1;
        }
        assert(ids@.subrange(0, ids.len() as int) =~= ids@);
        done
    }

    /// The additions in order; returns the ids that took effect.
    fn add_instances(&mut self, adds: &Vec<AddedInstance>) -> (done: Vec<u128>)
        requires
            old(self).wf(),
        ensures
            final(self).wf(),
            (final(self)@, done@) == add_all(old(self)@, adds@),
    {
        let mut done: Vec<u128> = Vec::new();
        let mut j: usize = 0;
        while j < adds.len()
            invariant
                self.wf(),
                j <= adds.len(),
                (self@, done@) == add_all(old(self)@, adds@.subrange(0, j as int)),
            decreases adds.len() - j,
        {
            let a = &adds[j];
            proof {
                let next = adds@.subrange(0, j + 1);
                assert(next.drop_last() =~= adds@.subrange(0, j as int));
                assert(next.last() == *a);
            }
            if a.id != 0 && !self.has_used(a.id) && self.nodes.len() < usize::MAX - 1 {
                match self.find_live(a.parent) {
                    Some(p) => {
                        let ghost before = self@;
                        let n = Node {
                            id: a.id,
                            parent: p,
                            alive: true,
                            class_name: a.class_name.clone(),
                            name: a.name.clone(),
                            properties: copy_properties(&a.properties),
                            metadata: a.metadata.copy_metadata(),
                        };
                        assert(n@ == new_node(*a, p as int));
                        self.nodes.push(n);
                        done.push(a.id);
                        proof {
                            assert(self@ =~= before.push(new_node(*a, p as int)));
                            let w = self@;
                            assert forall|i: int, k: int|
                                0 <= i < w.len() && 0 <= k < w.len() && i != k implies (
                                #[trigger] w[i]).id != (#[trigger] w[k]).id by {
                                if i < before.len() && k < before.len() {
                                    assert(before[i].id != before[k].id);
                                } else if i < before.len() {
                                    assert(before[i].id == w[i].id);
                                } else {
                                    assert(before[k].id == w[k].id);
                                }
                            }
                        }
                    },
                    None => {},
                }
            }
            j = j + 1;
        }
        assert(adds@.subrange(0, adds.len() as int) =~= adds@);
        done
    }

    /// Applies one update to the live instance in slot `i`.
    fn update_slot(&mut self, i: usize, u: &PatchUpdate)
        requires
            old(self).wf(),
            0 <= i < old(self)@.len(),
            old(self)@[i as int].alive,
        ensures
            final(self).wf(),
            final(self)@ == old(self)@.update(i as int, updated_node(old(self)@[i as int], *u)),
    {
        let ghost before = self.nodes@;
        match &u.changed_name {
            Some(n) => {
                self.nodes[i].name = n.clone();
            },
            None => {},
        }
        match &u.changed_class_name {
            Some(c) => {
                self.nodes[i].class_name = c.clone();
            },
            None => {},
        }
        apply_property_changes(&mut self.nodes[i].properties, &u.changed_properties);
        match &u.changed_metadata {
            Some(m) => {
                self.nodes[i].metadata = m.copy_metadata();
            },
            None => {},
        }
        proof {
            assert forall|k: int| 0 <= k < before.len() && k != i implies self.nodes@[k]
                == before[k] by {}
            assert(self@ =~= old(self)@.update(i as int, updated_node(old(self)@[i as int], *u)));
        }
    }

    /// The updates in order; returns those that reached a live instance.
    fn update_instances(&mut self, ups: Vec<PatchUpdate>) -> (done: Vec<PatchUpdate>)
        requires
            old(self).wf(),
        ensures
            final(self).wf(),
            (final(self)@, done@) == update_all(old(self)@, ups@),
    {
        let ghost all = ups@;
        let mut rest = ups;
        let mut done: Vec<PatchUpdate> = Vec::new();
        let ghost mut j: int = 0;
        while rest.len() > 0
            invariant
                self.wf(),
                0 <= j <= all.len(),
                rest@ == all.subrange(j, all.len() as int),
                (self@, done@) == update_all(old(self)@, all.subrange(0, j)),
            decreases rest@.len(),
        {
            let u = rest.remove(0);
            proof {
                let next = all.subrange(0, j + 1);
                assert(next.drop_last() =~= all.subrange(0, j));
                assert(next.last() == u);
            }
            match self.find_live(u.id) {
                Some(i) => {
                    self.update_slot(i, &u);
                    done.push(u);
                },
                None => {},
            }
            proof {
                j = j + 1;
                assert(rest@ =~= all.subrange(j, all.len() as int));
            }
        }
        assert(all.subrange(0, all.len() as int) =~= all);
        done
    }

    /// Applies a whole patch: removals, then additions, then updates. An
    /// entry that names an unknown instance, an unknown parent or an id
    /// already used is skipped; the rest of the patch still applies.
    pub fn apply(&mut self, patch: PatchSet) -> (r: AppliedPatch)
        requires
            old(self).wf(),
        ensures
            final(self).wf(),
            final(self)@ == apply_patch(old(self)@, patch),
            patch_record(old(self)@, patch, r),
    {
        let ghost p = patch;
        let PatchSet { removed_instances, added_instances, updated_instances } = patch;
        let removed = self.remove_instances(&removed_instances);
        let added = self.add_instances(&added_instances);
        let updated = self.update_instances(updated_instances);
        AppliedPatch { removed, added, updated }
    }

    /// A copy of slot `i`.
    fn snapshot(&self, i: usize) -> (s: InstanceSnapshot)
        requires
            self.wf(),
            i < self@.len(),
        ensures
            shows(self@, i as int, s),
    {
        let n = &self.nodes[i];
        assert(self@[i as int] == n@);
        let parent = if i == 0 {
            None
        } else {
            assert(self@[i as int].parent < i);
            Some(self.nodes[n.parent].id)
        };
        InstanceSnapshot {
            id: n.id,
            parent,
            class_name: n.class_name.clone(),
            name: n.name.clone(),
            properties: copy_properties(&n.properties),
            metadata: n.metadata.copy_metadata(),
        }
    }

    /// The instance `id`, or `None` when no live instance has that id.
    pub fn get(&self, id: u128) -> (r: Option<InstanceSnapshot>)
        requires
            self.wf(),
        ensures
            r is None <==> !is_live(self@, id),
            r matches Some(s) ==> shows(self@, slot_of(self@, id), s),
    {
        match self.find_live(id) {
            Some(i) => Some(self.snapshot(i)),
            None => None,
        }
    }

    /// Appends copies of the subtree rooted at slot `r`, in pre-order.
    fn push_subtree(&self, r: usize, out: &mut Vec<InstanceSnapshot>, Ghost(base): Ghost<Seq<int>>)
        requires
            self.wf(),
            r < self@.len(),
            shows_all(self@, base, old(out)@),
        ensures
            shows_all(self@, base + preorder(self@, r as int), final(out)@),
        decreases self@.len() - r, self@.len() + 1,
    {
        let ghost v = self@;
        let s = self.snapshot(r);
        let ghost prev = out@;
        out.push(s);
        proof {
            let b1 = base.push(r as int);
            assert forall|m: int| 0 <= m < out@.len() implies #[trigger] shows(v, b1[m], out@[m]) by {
                if m < out@.len() - 1 {
                    assert(out@[m] == prev[m]);
                    assert(shows(v, base[m], prev[m]));
                }
            }
        }
        self.push_child_subtrees(r, out, Ghost(base.push(r as int)));
        assert(base.push(r as int) + subtrees_from(v, r as int, r + 1) =~= base + preorder(
            v,
            r as int,
        ));
    }

    /// Appends copies of the subtrees of the children of slot `r`, in
    /// pre-order.
    fn push_child_subtrees(&self, r: usize, out: &mut Vec<InstanceSnapshot>, Ghost(base): Ghost<Seq<int>>)
        requires
            self.wf(),
            r < self@.len(),
            shows_all(self@, base, old(out)@),
        ensures
            shows_all(self@, base + subtrees_from(self@, r as int, r + 1), final(out)@),
        decreases self@.len() - r, self@.len(),
    {
        let ghost v = self@;
        let n = self.nodes.len();
        assert(r < n);
        let mut j: usize = r + 1;
        let ghost mut done = base;
        assert(base + subtrees_from(v, r as int, r + 1) =~= done + subtrees_from(v, r as int, r + 1));
        while j < self.nodes.len()
            invariant
                self.wf(),
                v == self@,
                r < j <= v.len(),
                shows_all(v, done, out@),
                done + subtrees_from(v, r as int, j as int) == base + subtrees_from(v, r as int, r + 1),
            decreases v.len() - j,
        {
            assert(self@[j as int] == self.nodes@[j as int]@);
            let ghost chunk = if is_child(v, r as int, j as int) {
                preorder(v, j as int)
            } else {
                Seq::empty()
            };
            assert(subtrees_from(v, r as int, j as int) == chunk + subtrees_from(v, r as int, j + 1));
            if self.nodes[j].alive && self.nodes[j].parent == r {
                self.push_subtree(j, out, Ghost(done));
            } else {
                assert(done + chunk =~= done);
            }
            proof {
                assert((done + chunk) + subtrees_from(v, r as int, j + 1) =~= done + (chunk
                    + subtrees_from(v, r as int, j + 1)));
                done = done + chunk;
            }
            j = j + 1;
        }
        assert(subtrees_from(v, r as int, j as int) =~= Seq::<int>::empty());
        assert(done + Seq::<int>::empty() =~= done);
    }

    /// Copies of the live strict descendants of `id`, in pre-order; empty
    /// when `id` is unknown or a leaf.
    pub fn descendants(&self, id: u128) -> (r: Vec<InstanceSnapshot>)
        requires
            self.wf(),
        ensures
            !is_live(self@, id) ==> r@.len() == 0,
            is_live(self@, id) ==> shows_all(self@, descendant_slots(self@, slot_of(self@, id)), r@),
    {
        let mut out: Vec<InstanceSnapshot> = Vec::new();
        match self.find_live(id) {
            Some(i) => {
                self.push_child_subtrees(i, &mut out, Ghost(Seq::empty()));
                assert(Seq::<int>::empty() + descendant_slots(self@, i as int) =~= descendant_slots(
                    self@,
                    i as int,
                ));
            },
            None => {},
        }
        out
    }

    /// For each live id in order, copies of its subtree in pre-order: the
    /// instance, then its descendants; unknown ids are skipped.
    pub fn read(&self, ids: &Vec<u128>) -> (r: Vec<InstanceSnapshot>)
        requires
            self.wf(),
        ensures
            shows_all(self@, read_slots(self@, ids@), r@),
    {
        let mut out: Vec<InstanceSnapshot> = Vec::new();
        let mut j: usize = 0;
        while j < ids.len()
            invariant
                self.wf(),
                j <= ids.len(),
                shows_all(self@, read_slots(self@, ids@.subrange(0, j as int)), out@),
            decreases ids.len() - j,
        {
            let id = ids[j];
            let ghost pre = ids@.subrange(0, j as int);
            proof {
                let next = ids@.subrange(0, j + 1);
                assert(next.drop_last() =~= pre);
                assert(next.last() == id);
            }
            match self.find_live(id) {
                Some(i) => {
                    self.push_subtree(i, &mut out, Ghost(read_slots(self@, pre)));
                },
                None => {},
            }
            j = j + 1;
        }
        assert(ids@.subrange(0, ids.len() as int) =~= ids@);
        out
    }

    /// The ids of the live children of `id`, in the order they were added;
    /// empty when `id` is unknown.
    pub fn children(&self, id: u128) -> (r: Vec<u128>)
        requires
            self.wf(),
        ensures
            !is_live(self@, id) ==> r@.len() == 0,
            is_live(self@, id) ==> r@ == children_prefix(self@, slot_of(self@, id), self@.len() as int),
    {
        let mut out: Vec<u128> = Vec::new();
        match self.find_live(id) {
            Some(p) => {
                let mut i: usize = 0;
                while i < self.nodes.len()
                    invariant
                        self.wf(),
                        i <= self@.len(),
                        out@ == children_prefix(self@, p as int, i as int),
                    decreases self@.len() - i,
                {
                    assert(self@[i as int] == self.nodes@[i as int]@);
                    if self.nodes[i].alive && i != 0 && self.nodes[i].parent == p {
                        out.push(self.nodes[i].id);
                    }
                    i = i + 1;
                }
            },
            None => {},
        }
        out
    }
}

/// Removing an id that names no live instance leaves the tree as it was,
/// and removing the same id twice in one batch is the same as removing it
/// once.
pub proof fn removal_is_idempotent(v: Seq<NodeView>, id: u128)
    requires
        tree_wf(v),
    ensures
        !is_live(v, id) ==> remove_all(v, seq![id]) == (v, Seq::<u128>::empty()),
        remove_all(v, seq![id, id]) == remove_all(v, seq![id]),
        tree_wf(remove_all(v, seq![id]).0),
{
    let one = seq![id];
    let two = seq![id, id];
    assert(one.drop_last() =~= Seq::<u128>::empty());
    assert(two.drop_last() =~= one);
    assert(remove_all(v, one.drop_last()) == (v, Seq::<u128>::empty()));
    let w = remove_all(v, one).0;
    if is_live(v, id) && slot_of(v, id) != 0 {
        let r = slot_of(v, id);
        assert(live_at(v, id, r));
        assert(w == kill(v, r));
        lemma_kill_wf(v, r);
        if is_live(w, id) {
            let k = slot_of(w, id);
            assert(live_at(w, id, k));
            assert(w[k].id == v[k].id);
            assert(v[k].id == v[r].id);
            assert(k == r);
        }
    } else if is_live(v, id) {
        lemma_live_slot_unique(v, id, slot_of(v, id));
    }
}

} // verus!
