use kyute::model::change::{Change, CollectionChanges, Revision};
use kyute::model::data::Data;
use kyute::model::lens::{compose, IdentityLens, Lens, LensExt, LensIndexExt, VecAddress, VecLens};
use kyute::model::update::{Append, Insert, Replace, Update};

#[derive(Clone)]
struct Doc;

impl Data for Doc {
    type Address = u32;
}

#[test]
fn change_constructors() {
    assert_eq!(Change::replacement(), Change::Replace);
    assert_eq!(Change::empty(), Change::Empty);
    assert_eq!(Change::relayout(), Change::Collection(CollectionChanges::Relayout));
    assert_eq!(
        Change::insertion(3, 2),
        Change::Collection(CollectionChanges::Splice { start: 3, remove: 0, insert: 2 })
    );
    assert_eq!(
        Change::deletion(1, 4),
        Change::Collection(CollectionChanges::Splice { start: 1, remove: 4, insert: 0 })
    );
    assert_eq!(
        Change::splicing(2, 1, 5),
        Change::Collection(CollectionChanges::Splice { start: 2, remove: 1, insert: 5 })
    );
    assert_eq!(Change::update(4..9), Change::Collection(CollectionChanges::Update { start: 4, end: 9 }));
}

#[test]
fn revision_reports_its_change() {
    let doc = Doc;
    let r = Revision::from_data(&doc);
    assert!(r.replaced());
    assert!(r.collection_changes().is_none());
    let r2 = Revision { data: &doc, addr: Some(7u32), change: Change::insertion(0, 1) };
    assert!(!r2.replaced());
    assert_eq!(r2.collection_changes(), Some(&CollectionChanges::Splice { start: 0, remove: 0, insert: 1 }));
    let r3 = Revision { data: &doc, addr: None, change: Change::empty() };
    assert!(!r3.replaced());
    assert!(r3.collection_changes().is_none());
}

#[test]
fn vec_lens_reads_and_addresses_its_element() {
    let v = vec![Doc, Doc, Doc];
    let lens: VecLens<Doc> = VecLens::new(1);
    assert!(lens.try_get(&v).is_some());
    assert!(VecLens::<Doc>::new(3).try_get(&v).is_none());
    let addr = lens.address().unwrap();
    assert_eq!(addr.0, 1);
    assert!(addr.1.is_none());
    assert_eq!(lens.unprefix(VecAddress(1, Some(5u32))), Some(Some(5u32)));
    assert_eq!(lens.unprefix(VecAddress(2, Some(5u32))), None);
    assert_eq!(lens.clone().unprefix(VecAddress(1, None)), Some(None));
}

#[test]
fn update_constructors_keep_their_parts() {
    let r = Replace::new(VecLens::<Doc>::new(0), 5u8);
    assert_eq!(r.value, 5);
    let a = Append::new(VecLens::<Doc>::new(2), 'x');
    assert_eq!(a.element, 'x');
    let i = Insert::new(VecLens::<Doc>::new(1), 4usize, "e");
    assert_eq!(i.index, 4);
    assert_eq!(i.element, "e");
}

#[derive(Clone, Debug, PartialEq)]
struct Item(u32);

impl Data for Item {
    type Address = ();
}

fn items(v: &[u32]) -> Vec<Item> {
    v.iter().map(|x| Item(*x)).collect()
}

#[test]
fn composed_lenses_join_and_split_addresses() {
    let table = vec![items(&[1, 2]), items(&[3, 4, 5])];
    let lens = compose(VecLens::<Vec<Item>>::new(1), VecLens::<Item>::new(2));
    assert_eq!(lens.try_get(&table), Some(&Item(5)));
    assert_eq!(compose(VecLens::<Vec<Item>>::new(0), VecLens::<Item>::new(2)).try_get(&table), None);
    match lens.address() {
        Some(VecAddress(1, Some(VecAddress(2, None)))) => {}
        _ => panic!("unexpected address"),
    }
    let inner = lens.unprefix(VecAddress(1, Some(VecAddress(2, Some(())))));
    assert_eq!(inner, Some(Some(())));
    assert_eq!(lens.unprefix(VecAddress(1, Some(VecAddress(0, None)))), None);
    assert_eq!(lens.unprefix(VecAddress(1, None)), None);
    assert_eq!(lens.unprefix(VecAddress(0, Some(VecAddress(2, None)))), None);
    assert_eq!(lens.get(&table), Item(5));
    let indexed = LensIndexExt::<Vec<Vec<Item>>, Vec<Vec<Item>>>::index(IdentityLens, 0);
    assert_eq!(indexed.try_get(&table), Some(&items(&[1, 2])));
}

#[test]
fn identity_lens_sees_everything() {
    let v = items(&[7]);
    let id = IdentityLens;
    assert_eq!(Lens::<Vec<Item>, Vec<Item>>::try_get(&id, &v), Some(&v));
    let a: Option<VecAddress<Item>> = Lens::<Vec<Item>, Vec<Item>>::address(&id);
    assert!(a.is_none());
    match Lens::<Vec<Item>, Vec<Item>>::concat(&id, Some(VecAddress(0, None))) {
        Some(VecAddress(0, None)) => {}
        _ => panic!("unexpected address"),
    }
    assert_eq!(Lens::<Vec<Item>, Vec<Item>>::try_with(&id, &v, |x| x.len()), Some(1));
}

#[test]
fn focus_follows_changes_into_the_part() {
    let v = items(&[1, 2, 3]);
    let lens = VecLens::<Item>::new(1);
    let replaced = Revision::from_data(&v);
    assert_eq!(lens.focus(replaced, |r| (r.data.clone(), r.addr.is_none(), r.replaced())), Some((Item(2), true, true)));
    let inside = Revision { data: &v, addr: Some(VecAddress(1, Some(()))), change: Change::relayout() };
    assert_eq!(lens.focus(inside, |r| (r.data.clone(), r.addr.is_some(), r.replaced())), Some((Item(2), true, false)));
    let elsewhere = Revision { data: &v, addr: Some(VecAddress(2, None)), change: Change::relayout() };
    assert_eq!(lens.focus(elsewhere, |r| r.data.clone()), None);
    let nowhere = Revision { data: &v, addr: None, change: Change::relayout() };
    assert_eq!(lens.focus(nowhere, |r| r.data.clone()), None);
    let again = Revision { data: &v, addr: Some(VecAddress(1, None)), change: Change::empty() };
    assert_eq!(lens.get_if_changed(again), Some(Item(2)));
}

#[test]
fn updates_edit_the_part_a_lens_sees() {
    let mut table = vec![items(&[1, 2]), items(&[3])];
    let mut r = Replace::new(compose(VecLens::<Vec<Item>>::new(0), VecLens::<Item>::new(1)), Item(9));
    assert_eq!(r.apply(&mut table), Change::Replace);
    assert_eq!(table, vec![items(&[1, 9]), items(&[3])]);
    let mut a = Append::new(VecLens::<Vec<Item>>::new(1), Item(4));
    assert_eq!(a.apply(&mut table), Change::Replace);
    assert_eq!(table, vec![items(&[1, 9]), items(&[3, 4])]);
    let mut i = Insert::new(VecLens::<Vec<Item>>::new(0), 0usize, Item(0));
    assert_eq!(i.apply(&mut table), Change::Replace);
    assert_eq!(table, vec![items(&[0, 1, 9]), items(&[3, 4])]);
    match a.address() {
        Some(VecAddress(1, None)) => {}
        _ => panic!("unexpected address"),
    }
}
