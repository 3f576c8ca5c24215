use rojo::patch::{AddedInstance, Metadata, PatchSet, PatchUpdate, Variant};
use rojo::queue::{MessageQueue, Poll};
use rojo::session::{ServeSession, SubscribeOutcome};
use rojo::tree::InstanceTree;

const ROOT: u128 = 1;

fn session(id: u128) -> ServeSession {
    ServeSession::new(id, "demo".to_string(), ROOT, "DataModel".to_string(), "game".to_string(), None)
}

fn no_metadata() -> Metadata {
    Metadata { relevant_paths: Vec::new(), ignore_unknown_instances: false }
}

fn add(id: u128, parent: u128, class_name: &str, name: &str) -> AddedInstance {
    AddedInstance {
        id,
        parent,
        class_name: class_name.to_string(),
        name: name.to_string(),
        properties: Vec::new(),
        metadata: no_metadata(),
    }
}

fn add_patch(entries: Vec<AddedInstance>) -> PatchSet {
    let mut p = PatchSet::new();
    p.added_instances = entries;
    p
}

fn remove_patch(ids: Vec<u128>) -> PatchSet {
    let mut p = PatchSet::new();
    p.removed_instances = ids;
    p
}

#[test]
fn add_then_subscribe_from_zero() {
    let mut s = session(7);
    let c = s.mutate(add_patch(vec![add(10, ROOT, "Folder", "A")]));
    assert_eq!(c, Some(1));
    assert_eq!(s.cursor(), 1);
    match s.subscribe(0) {
        SubscribeOutcome::Ready(cursor, messages) => {
            assert_eq!(cursor, 1);
            assert_eq!(messages.len(), 1);
            assert!(messages[0].removed.is_empty());
            assert!(messages[0].updated.is_empty());
            assert_eq!(messages[0].added.len(), 1);
            assert_eq!(messages[0].added[0].id, 10);
            assert_eq!(messages[0].added[0].name, "A");
            assert_eq!(messages[0].added[0].parent, Some(ROOT));
        }
        _ => panic!("expected the addition"),
    }
}

#[test]
fn two_mutations_in_order() {
    let mut s = session(7);
    assert_eq!(s.mutate(add_patch(vec![add(10, ROOT, "Folder", "A")])), Some(1));
    let n = s.cursor();
    assert_eq!(s.mutate(add_patch(vec![add(11, ROOT, "Folder", "B")])), Some(n + 1));
    assert_eq!(s.mutate(add_patch(vec![add(12, ROOT, "Folder", "C")])), Some(n + 2));
    let r = s.read(&vec![ROOT]);
    let ids: Vec<u128> = r.instances.iter().map(|i| i.id).collect();
    assert_eq!(ids, vec![ROOT, 10, 11, 12]);
    assert_eq!(r.message_cursor, 3);
}

#[test]
fn waiting_subscriber_gets_one_batch() {
    let mut s = session(7);
    let now = s.cursor();
    assert!(matches!(s.subscribe(now), SubscribeOutcome::Pending));
    s.mutate(add_patch(vec![add(10, ROOT, "Folder", "A")]));
    s.mutate(add_patch(vec![add(11, ROOT, "Folder", "B")]));
    match s.subscribe(now) {
        SubscribeOutcome::Ready(cursor, messages) => {
            assert_eq!(cursor, now + 2);
            assert_eq!(messages.len(), 2);
            assert_eq!(messages[0].added[0].id, 10);
            assert_eq!(messages[1].added[0].id, 11);
        }
        _ => panic!("expected both changes"),
    }
}

#[test]
fn read_unknown_id_is_empty() {
    let s = session(7);
    let r = s.read(&vec![999]);
    assert!(r.instances.is_empty());
    assert_eq!(r.session_id, 7);
}

#[test]
fn restarted_session_has_new_id() {
    let mut old = session(7);
    old.mutate(add_patch(vec![add(10, ROOT, "Folder", "A")]));
    old.mutate(add_patch(vec![add(11, ROOT, "Folder", "B")]));
    let stale = old.cursor();
    let fresh = session(8);
    assert_ne!(fresh.session_id(), old.session_id());
    assert!(matches!(fresh.subscribe(stale), SubscribeOutcome::Pending));
}

#[test]
fn cursors_count_from_zero() {
    let mut q: MessageQueue<u32> = MessageQueue::new();
    assert_eq!(q.cursor(), 0);
    for k in 1..=5u32 {
        assert_eq!(q.publish(k * 100), Some(k));
    }
    assert_eq!(*q.message(3), 300);
}

#[test]
fn waiter_gets_next_message_once() {
    let mut q: MessageQueue<u32> = MessageQueue::new();
    q.publish(1);
    let c = q.cursor();
    assert!(matches!(q.poll(c), Poll::Pending));
    q.publish(2);
    match q.poll(c) {
        Poll::Ready(n, ms) => {
            assert_eq!(n, c + 1);
            assert_eq!(ms, &[2]);
        }
        _ => panic!("expected the new message"),
    }
}

#[test]
fn batches_follow_publish_order() {
    let mut q: MessageQueue<u32> = MessageQueue::new();
    q.publish(10);
    q.publish(20);
    let (c, first) = match q.poll(0) {
        Poll::Ready(c, ms) => (c, ms.to_vec()),
        _ => panic!("expected messages"),
    };
    q.publish(30);
    q.publish(40);
    let second = match q.poll(c) {
        Poll::Ready(_, ms) => ms.to_vec(),
        _ => panic!("expected messages"),
    };
    assert_eq!(first, vec![10, 20]);
    assert_eq!(second, vec![30, 40]);
}

#[test]
fn closed_queue_disconnects() {
    let mut s = session(7);
    s.close();
    assert!(matches!(s.subscribe(0), SubscribeOutcome::Disconnected));
}

#[test]
fn removal_cascades_and_repeats_harmlessly() {
    let mut t = InstanceTree::new(ROOT, "DataModel".to_string(), "game".to_string());
    t.apply(add_patch(vec![add(10, ROOT, "Folder", "A"), add(11, 10, "Folder", "B"), add(12, 11, "Part", "C")]));
    let applied = t.apply(remove_patch(vec![11, 11, 99]));
    assert_eq!(applied.removed, vec![11]);
    assert!(t.contains(10));
    assert!(!t.contains(11));
    assert!(!t.contains(12));
    let again = t.apply(remove_patch(vec![11]));
    assert!(again.removed.is_empty());
    assert!(t.contains(10));
}

#[test]
fn root_cannot_be_removed() {
    let mut t = InstanceTree::new(ROOT, "DataModel".to_string(), "game".to_string());
    let applied = t.apply(remove_patch(vec![ROOT]));
    assert!(applied.removed.is_empty());
    assert!(t.contains(ROOT));
}

#[test]
fn bad_entries_are_skipped() {
    let mut t = InstanceTree::new(ROOT, "DataModel".to_string(), "game".to_string());
    let applied = t.apply(add_patch(vec![
        add(10, 55, "Folder", "orphan"),
        add(11, ROOT, "Folder", "ok"),
        add(11, ROOT, "Folder", "duplicate"),
        add(0, ROOT, "Folder", "null"),
    ]));
    assert_eq!(applied.added, vec![11]);
    assert!(t.get(0).is_none());
    assert!(!t.contains(10));
    assert_eq!(t.get(11).unwrap().name, "ok");
}

#[test]
fn removed_ids_are_not_reused() {
    let mut t = InstanceTree::new(ROOT, "DataModel".to_string(), "game".to_string());
    t.apply(add_patch(vec![add(10, ROOT, "Folder", "A")]));
    t.apply(remove_patch(vec![10]));
    let applied = t.apply(add_patch(vec![add(10, ROOT, "Folder", "again")]));
    assert!(applied.added.is_empty());
    assert!(t.get(10).is_none());
}

#[test]
fn updates_change_fields_and_properties() {
    let mut t = InstanceTree::new(ROOT, "DataModel".to_string(), "game".to_string());
    t.apply(add_patch(vec![add(10, ROOT, "Part", "A")]));
    let mut p = PatchSet::new();
    p.updated_instances = vec![
        PatchUpdate {
            id: 10,
            changed_name: Some("B".to_string()),
            changed_class_name: None,
            changed_properties: vec![
                ("Anchored".to_string(), Some(Variant::Bool(true))),
                ("Size".to_string(), Some(Variant::Int64(4))),
                ("Size".to_string(), None),
                ("Tags".to_string(), Some(Variant::BinaryString(vec![1, 2, 3]))),
            ],
            changed_metadata: None,
        },
        PatchUpdate {
            id: 77,
            changed_name: Some("ghost".to_string()),
            changed_class_name: None,
            changed_properties: Vec::new(),
            changed_metadata: None,
        },
    ];
    let applied = t.apply(p);
    assert_eq!(applied.updated.len(), 1);
    assert_eq!(applied.updated[0].id, 10);
    let a = t.get(10).unwrap();
    assert_eq!(a.name, "B");
    assert_eq!(a.class_name, "Part");
    assert_eq!(a.properties.len(), 2);
    assert_eq!(a.properties[0].0, "Anchored");
    assert!(matches!(a.properties[0].1, Variant::Bool(true)));
    assert_eq!(a.properties[1].0, "Tags");
    assert!(matches!(&a.properties[1].1, Variant::BinaryString(b) if b == &vec![1u8, 2, 3]));
}

#[test]
fn descendants_and_children() {
    let mut t = InstanceTree::new(ROOT, "DataModel".to_string(), "game".to_string());
    t.apply(add_patch(vec![add(10, ROOT, "Folder", "A"), add(11, 10, "Folder", "B"), add(12, ROOT, "Folder", "C"), add(13, 11, "Part", "D")]));
    let d: Vec<u128> = t.descendants(10).iter().map(|i| i.id).collect();
    assert_eq!(d, vec![11, 13]);
    assert!(t.descendants(13).is_empty());
    assert!(t.descendants(404).is_empty());
    assert_eq!(t.children(ROOT), vec![10, 12]);
    assert_eq!(t.root_id(), ROOT);
}

#[test]
fn descendants_come_in_pre_order() {
    let mut t = InstanceTree::new(ROOT, "DataModel".to_string(), "game".to_string());
    t.apply(add_patch(vec![add(10, ROOT, "Folder", "A"), add(11, ROOT, "Folder", "B")]));
    t.apply(add_patch(vec![add(12, 10, "Folder", "C")]));
    let d: Vec<u128> = t.descendants(ROOT).iter().map(|i| i.id).collect();
    assert_eq!(d, vec![10, 12, 11]);
    let r: Vec<u128> = t.read(&vec![11, 10]).iter().map(|i| i.id).collect();
    assert_eq!(r, vec![11, 10, 12]);
}
