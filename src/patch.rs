use vstd::prelude::*;

verus! {

/// A typed property value.
pub enum Variant {
    Bool(bool),
    Int32(i32),
    Int64(i64),
    String(String),
    BinaryString(Vec<u8>),
    Ref(u128),
}

/// The model of a property value.
pub enum VariantView {
    Bool(bool),
    Int32(i32),
    Int64(i64),
    String(Seq<char>),
    BinaryString(Seq<u8>),
    Ref(u128),
}

impl View for Variant {
    type V = VariantView;

    open spec fn view(&self) -> VariantView {
        match self {
            Variant::Bool(b) => VariantView::Bool(*b),
            Variant::Int32(n) => VariantView::Int32(*n),
            Variant::Int64(n) => VariantView::Int64(*n),
            Variant::String(s) => VariantView::String(s@),
            Variant::BinaryString(b) => VariantView::BinaryString(b@),
            Variant::Ref(r) => VariantView::Ref(*r),
        }
    }
}

pub fn copy_bytes(v: &Vec<u8>) -> (r: Vec<u8>)
    ensures
        r@ == v@,
{
    let mut r: Vec<u8> = Vec::new();
    let mut i: usize = 0;
    while i < v.len()
        invariant
            i <= v.len(),
            r@ == v@.subrange(0, i as int),
        decreases v.len() - i,
    {
        r.push(v[i]);
        i = i + 1;
        assert(r@ =~= v@.subrange(0, i as int));
    }
    assert(r@ =~= v@);
    r
}

impl Variant {
    /// A copy of this value.
    pub fn copy_value(&self) -> (r: Variant)
        ensures
            r@ == self@,
    {
        match self {
            Variant::Bool(b) => Variant::Bool(*b),
            Variant::Int32(n) => Variant::Int32(*n),
            Variant::Int64(n) => Variant::Int64(*n),
            Variant::String(s) => Variant::String(s.clone()),
            Variant::BinaryString(b) => Variant::BinaryString(copy_bytes(b)),
            Variant::Ref(r) => Variant::Ref(*r),
        }
    }
}

/// The model of an optional value: a change that sets or deletes.
pub open spec fn option_view(v: Option<Variant>) -> Option<VariantView> {
    match v {
        Some(x) => Some(x@),
        None => None,
    }
}

/// Two property lists that hold the same names and values, pair by pair.
pub open spec fn same_entries(a: Seq<(String, Variant)>, b: Seq<(String, Variant)>) -> bool {
    &&& a.len() == b.len()
    &&& forall|i: int| 0 <= i < a.len() ==> (#[trigger] a[i]).0@ == b[i].0@ && a[i].1@ == b[i].1@
}

/// Two change lists that make the same changes, one by one.
pub open spec fn same_changes(
    a: Seq<(String, Option<Variant>)>,
    b: Seq<(String, Option<Variant>)>,
) -> bool {
    &&& a.len() == b.len()
    &&& forall|i: int|
        0 <= i < a.len() ==> (#[trigger] a[i]).0@ == b[i].0@ && option_view(a[i].1) == option_view(
            b[i].1,
        )
}

/// Host-side data of an instance that is not part of the synchronized model.
pub struct Metadata {
    pub relevant_paths: Vec<String>,
    pub ignore_unknown_instances: bool,
}

pub fn copy_strings(v: &Vec<String>) -> (r: Vec<String>)
    ensures
        r@ == v@,
{
    let mut r: Vec<String> = Vec::new();
    let mut i: usize = 0;
    while i < v.len()
        invariant
            i <= v.len(),
            r@ == v@.subrange(0, i as int),
        decreases v.len() - i,
    {
        r.push(v[i].clone());
        i = i + 1;
        assert(r@ =~= v@.subrange(0, i as int));
    }
    assert(r@ =~= v@);
    r
}

impl Metadata {
    pub open spec fn same_as(&self, other: &Metadata) -> bool {
        &&& self.relevant_paths@ == other.relevant_paths@
        &&& self.ignore_unknown_instances == other.ignore_unknown_instances
    }

    pub fn copy_metadata(&self) -> (r: Metadata)
        ensures
            r.same_as(self),
    {
        Metadata {
            relevant_paths: copy_strings(&self.relevant_paths),
            ignore_unknown_instances: self.ignore_unknown_instances,
        }
    }
}

/// A list of (name, value) pairs read as a map; a later pair with the same
/// name shadows an earlier one.
pub open spec fn lookup(props: Seq<(String, Variant)>, key: Seq<char>) -> Option<VariantView>
    decreases props.len(),
{
    if props.len() == 0 {
        None
    } else if props.last().0@ == key {
        Some(props.last().1@)
    } else {
        lookup(props.drop_last(), key)
    }
}

/// The properties as a map from name to value.
pub open spec fn props_map(props: Seq<(String, Variant)>) -> Map<Seq<char>, VariantView> {
    Map::new(|k: Seq<char>| lookup(props, k) is Some, |k: Seq<char>| lookup(props, k)->Some_0)
}

/// Property changes in order: `Some(v)` sets a property, `None` deletes it;
/// the last change of a name wins, and a name that no change mentions keeps
/// its value in `props`.
pub open spec fn changed_lookup(
    props: Seq<(String, Variant)>,
    changes: Seq<(String, Option<Variant>)>,
    key: Seq<char>,
) -> Option<VariantView>
    decreases changes.len(),
{
    if changes.len() == 0 {
        lookup(props, key)
    } else if changes.last().0@ == key {
        option_view(changes.last().1)
    } else {
        changed_lookup(props, changes.drop_last(), key)
    }
}

pub open spec fn changed_map(
    props: Seq<(String, Variant)>,
    changes: Seq<(String, Option<Variant>)>,
) -> Map<Seq<char>, VariantView> {
    Map::new(
        |k: Seq<char>| changed_lookup(props, changes, k) is Some,
        |k: Seq<char>| changed_lookup(props, changes, k)->Some_0,
    )
}

/// A map after property changes in order: `Some(v)` sets, `None` deletes.
pub open spec fn map_changes(
    m: Map<Seq<char>, VariantView>,
    changes: Seq<(String, Option<Variant>)>,
) -> Map<Seq<char>, VariantView>
    decreases changes.len(),
{
    if changes.len() == 0 {
        m
    } else {
        let before = map_changes(m, changes.drop_last());
        match changes.last().1 {
            Some(v) => before.insert(changes.last().0@, v@),
            None => before.remove(changes.last().0@),
        }
    }
}

proof fn lemma_map_changes(props: Seq<(String, Variant)>, changes: Seq<(String, Option<Variant>)>)
    ensures
        map_changes(props_map(props), changes) == changed_map(props, changes),
    decreases changes.len(),
{
    if changes.len() == 0 {
        assert(props_map(props) =~= changed_map(props, changes));
    } else {
        lemma_map_changes(props, changes.drop_last());
        assert(map_changes(props_map(props), changes) =~= changed_map(props, changes));
    }
}

proof fn lemma_lookup_absent(props: Seq<(String, Variant)>, key: Seq<char>)
    requires
        forall|j: int| 0 <= j < props.len() ==> (#[trigger] props[j]).0@ != key,
    ensures
        lookup(props, key) is None,
    decreases props.len(),
{
    if props.len() > 0 {
        let d = props.drop_last();
        assert forall|j: int| 0 <= j < d.len() implies (#[trigger] d[j]).0@ != key by {
            assert(d[j] == props[j]);
        }
        lemma_lookup_absent(d, key);
    }
}

proof fn lemma_lookup_remove(props: Seq<(String, Variant)>, i: int, key: Seq<char>)
    requires
        0 <= i < props.len(),
        props[i].0@ != key,
    ensures
        lookup(props.remove(i), key) == lookup(props, key),
    decreases props.len(),
{
    let r = props.remove(i);
    if i == props.len() - 1 {
        assert(r =~= props.drop_last());
    } else {
        assert(r.last() == props.last());
        assert(r.drop_last() =~= props.drop_last().remove(i));
        lemma_lookup_remove(props.drop_last(), i, key);
    }
}

/// Deletes every pair named `key`.
pub fn remove_property(props: &mut Vec<(String, Variant)>, key: &String)
    ensures
        lookup(final(props)@, key@) is None,
        forall|k: Seq<char>| k != key@ ==> lookup(final(props)@, k) == lookup(old(props)@, k),
{
    let mut i: usize = 0;
    while i < props.len()
        invariant
            i <= props.len(),
            forall|j: int| 0 <= j < i ==> (#[trigger] props@[j]).0@ != key@,
            forall|k: Seq<char>| k != key@ ==> lookup(props@, k) == lookup(old(props)@, k),
        decreases props.len() - i,
    {
        if props[i].0 == *key {
            let ghost before = props@;
            props.remove(i);
            proof {
                assert forall|k: Seq<char>| k != key@ implies lookup(props@, k) == lookup(
                    old(props)@,
                    k,
                ) by {
                    lemma_lookup_remove(before, i as int, k);
                }
            }
        } else {
            i = i + 1;
        }
    }
    proof {
        lemma_lookup_absent(props@, key@);
    }
}

proof fn lemma_same_lookup(a: Seq<(String, Variant)>, b: Seq<(String, Variant)>, key: Seq<char>)
    requires
        same_entries(a, b),
    ensures
        lookup(a, key) == lookup(b, key),
    decreases a.len(),
{
    if a.len() > 0 {
        assert(a.last() == a[a.len() - 1]);
        let (da, db) = (a.drop_last(), b.drop_last());
        assert forall|i: int| 0 <= i < da.len() implies (#[trigger] da[i]).0@ == db[i].0@ && da[i].1@
            == db[i].1@ by {
            assert(da[i] == a[i] && db[i] == b[i]);
        }
        lemma_same_lookup(da, db, key);
    }
}

pub fn copy_properties(props: &Vec<(String, Variant)>) -> (r: Vec<(String, Variant)>)
    ensures
        same_entries(r@, props@),
        props_map(r@) == props_map(props@),
{
    let mut r: Vec<(String, Variant)> = Vec::new();
    let mut i: usize = 0;
    while i < props.len()
        invariant
            i <= props.len(),
            r@.len() == i,
            forall|j: int| 0 <= j < i ==> (#[trigger] r@[j]).0@ == props@[j].0@ && r@[j].1@ == props@[j].1@,
        decreases props.len() - i,
    {
        let (k, v) = (&props[i].0, &props[i].1);
        r.push((k.clone(), v.copy_value()));
        i = i + 1;
    }
    proof {
        assert forall|k: Seq<char>| lookup(r@, k) == lookup(props@, k) by {
            lemma_same_lookup(r@, props@, k);
        }
        assert(props_map(r@) =~= props_map(props@));
    }
    r
}

/// Applies property changes in order to `props`.
pub fn apply_property_changes(
    props: &mut Vec<(String, Variant)>,
    changes: &Vec<(String, Option<Variant>)>,
)
    ensures
        forall|k: Seq<char>| lookup(final(props)@, k) == changed_lookup(old(props)@, changes@, k),
        props_map(final(props)@) == map_changes(props_map(old(props)@), changes@),
{
    let mut j: usize = 0;
    while j < changes.len()
        invariant
            j <= changes.len(),
            forall|k: Seq<char>|
                lookup(props@, k) == changed_lookup(
                    old(props)@,
                    changes@.subrange(0, j as int),
                    k,
                ),
        decreases changes.len() - j,
    {
        let key = &changes[j].0;
        let ghost before = props@;
        remove_property(props, key);
        let ghost removed = props@;
        match &changes[j].1 {
            Some(v) => {
                props.push((key.clone(), v.copy_value()));
                assert(props@.drop_last() == removed);
            },
            None => {},
        }
        proof {
            let pre = changes@.subrange(0, j as int);
            let next = changes@.subrange(0, j + 1);
            assert(next.drop_last() =~= pre);
            assert(next.last() == changes@[j as int]);
            assert forall|k: Seq<char>|
                lookup(props@, k) == changed_lookup(old(props)@, next, k) by {
                if k != key@ {
                    assert(lookup(removed, k) == lookup(before, k));
                }
            }
        }
        j = j + 1;
    }
    assert(changes@.subrange(0, changes.len() as int) =~= changes@);
    assert(props_map(props@) =~= changed_map(old(props)@, changes@));
    proof {
        lemma_map_changes(old(props)@, changes@);
    }
}

/// A property change: `Some` sets the value, `None` deletes the property.
pub type PropertyChange = (String, Option<Variant>);

/// An instance to add under an existing parent. A subtree is added as one
/// entry per instance, each parent listed before its children.
pub struct AddedInstance {
    pub id: u128,
    pub parent: u128,
    pub class_name: String,
    pub name: String,
    pub properties: Vec<(String, Variant)>,
    pub metadata: Metadata,
}

/// Changes to one existing instance.
pub struct PatchUpdate {
    pub id: u128,
    pub changed_name: Option<String>,
    pub changed_class_name: Option<String>,
    pub changed_properties: Vec<PropertyChange>,
    pub changed_metadata: Option<Metadata>,
}

/// A batch of changes, applied as one step: removals, then additions, then
/// updates.
pub struct PatchSet {
    pub removed_instances: Vec<u128>,
    pub added_instances: Vec<AddedInstance>,
    pub updated_instances: Vec<PatchUpdate>,
}

impl PatchSet {
    pub fn new() -> (r: PatchSet)
        ensures
            r.removed_instances@.len() == 0,
            r.added_instances@.len() == 0,
            r.updated_instances@.len() == 0,
    {
        PatchSet {
            removed_instances: Vec::new(),
            added_instances: Vec::new(),
            updated_instances: Vec::new(),
        }
    }
}

/// What a patch actually changed: the removed subtree roots, the added
/// instances and the updates that reached a live instance, each in patch
/// order.
pub struct AppliedPatch {
    pub removed: Vec<u128>,
    pub added: Vec<u128>,
    pub updated: Vec<PatchUpdate>,
}

} // verus!
