use dependent_map::map::{mix, MIX};
use dependent_map::{
    DynPartialEq, Entry, InnerEntry, IntoBox, Just, MultiValued, Multiple, Nil, Singleton, Sum,
    TypeMap,
};

type One<T> = InnerEntry<Singleton, T>;
type Many<T> = InnerEntry<MultiValued, T>;

type Ints = Sum<One<u8>, Sum<One<u16>, Sum<One<u32>, Sum<One<u64>, Nil>>>>;
type Numbered = Sum<Many<u32>, Sum<Many<u64>, Sum<Many<u8>, Nil>>>;
type WithFloat = Sum<One<u32>, Sum<One<f64>, Sum<One<u64>, Nil>>>;

#[test]
fn new_table_is_empty() {
    let map = TypeMap::<Singleton, Ints>::new();
    assert_eq!(map.len(), 0);
    assert!(map.is_empty());
    assert!(map.capacity() >= map.len());
    assert_eq!(map.get_default::<u32, _>(), None);
}

#[test]
fn len_counts_inserts_and_removals() {
    let mut map = TypeMap::<MultiValued, Numbered>::new();
    assert_eq!(map.insert::<u32, _>(Multiple::new(0, 10)), None);
    assert_eq!(map.len(), 1);
    assert_eq!(map.insert::<u32, _>(Multiple::new(1, 11)), None);
    assert_eq!(map.len(), 2);
    assert!(map.insert::<u32, _>(Multiple::new(1, 12)).is_some());
    assert_eq!(map.len(), 2);
    assert!(map.remove_entry::<u32, _>(&0).is_some());
    assert_eq!(map.len(), 1);
    assert_eq!(map.remove_entry::<u32, _>(&0), None);
    assert_eq!(map.len(), 1);
    assert!(!map.is_empty());
}

#[test]
fn insert_then_get_round_trip() {
    let mut map = TypeMap::<MultiValued, Numbered>::new();
    let _ = map.insert::<u64, _>(Multiple::new(7, 99u64));
    assert_eq!(map.get::<u64, _>(&7), Some(&Multiple::new(7, 99u64)));
    assert!(map.contains_key::<u64, _>(&7));
    assert!(!map.contains_key::<u64, _>(&8));
}

#[test]
fn full_insert_returns_previous_entry() {
    let mut map = TypeMap::<MultiValued, Numbered>::new();
    assert_eq!(map.insert::<u32, _>(Multiple::new(3, 1u32)), None);
    assert_eq!(map.insert::<u32, _>(Multiple::new(3, 2u32)), Some(Multiple::new(3, 1u32)));
    assert_eq!(map.get::<u32, _>(&3).expect("filed").value, 2);
    assert_eq!(map.len(), 1);
}

#[test]
fn entry_value_replace_keeps_key() {
    let mut map = TypeMap::<MultiValued, Numbered>::new();
    let _ = map.insert::<u32, _>(Multiple::new(5, 50u32));
    match map.entry::<u32, _>(5) {
        Entry::Occupied(mut o) => {
            assert_eq!(*o.key(), 5);
            assert_eq!(*o.get(), 50);
            assert_eq!(o.insert(60), 50);
            assert_eq!(o.hash_entry().variant, 5);
            assert_eq!(*o.get(), 60);
        },
        Entry::Vacant(_) => panic!("the key is filed"),
    }
    assert_eq!(map.get::<u32, _>(&5), Some(&Multiple::new(5, 60u32)));
    assert_eq!(map.len(), 1);
}

#[test]
fn entry_vacant_insert_files_entry() {
    let mut map = TypeMap::<MultiValued, Numbered>::new();
    match map.entry::<u8, _>(9) {
        Entry::Occupied(_) => panic!("nothing is filed"),
        Entry::Vacant(v) => {
            assert_eq!(*v.key(), 9);
            let value = v.insert(|k| Multiple::new(k, 200u8));
            assert_eq!(*value, 200);
            *value = 201;
        },
    }
    assert_eq!(map.get::<u8, _>(&9), Some(&Multiple::new(9, 201u8)));
    assert_eq!(map.len(), 1);
}

#[test]
fn entry_vacant_into_key_leaves_table() {
    let mut map = TypeMap::<MultiValued, Numbered>::new();
    match map.entry::<u8, _>(4) {
        Entry::Occupied(_) => panic!("nothing is filed"),
        Entry::Vacant(v) => assert_eq!(v.into_key(), 4),
    }
    assert_eq!(map.len(), 0);
}

#[test]
fn entry_occupied_remove() {
    let mut map = TypeMap::<MultiValued, Numbered>::new();
    let _ = map.insert::<u64, _>(Multiple::new(1, 5u64));
    let _ = map.insert::<u64, _>(Multiple::new(2, 6u64));
    match map.entry::<u64, _>(1) {
        Entry::Occupied(o) => assert_eq!(o.remove_entry(), Multiple::new(1, 5u64)),
        Entry::Vacant(_) => panic!("the key is filed"),
    }
    assert_eq!(map.get::<u64, _>(&1), None);
    assert_eq!(map.get::<u64, _>(&2), Some(&Multiple::new(2, 6u64)));
    assert_eq!(map.len(), 1);
}

#[test]
fn get_mut_changes_value_only() {
    let mut map = TypeMap::<MultiValued, Numbered>::new();
    let _ = map.insert::<u32, _>(Multiple::new(2, 20u32));
    *map.get_mut::<u32, _>(&2).expect("filed") += 1;
    assert_eq!(map.get::<u32, _>(&2), Some(&Multiple::new(2, 21u32)));
    assert_eq!(map.get_mut::<u32, _>(&3), None);
}

#[test]
fn remove_present_then_absent() {
    let mut map = TypeMap::<Singleton, Ints>::new();
    let _ = map.insert::<u16, _>(Just::new(300u16));
    assert_eq!(map.remove_entry::<u16, _>(&()), Some(Just::new(300u16)));
    assert_eq!(map.get_default::<u16, _>(), None);
    assert_eq!(map.len(), 0);
    assert_eq!(map.remove_entry::<u16, _>(&()), None);
    assert_eq!(map.len(), 0);
}

#[test]
fn stored_types_do_not_interfere() {
    let mut map = TypeMap::<MultiValued, Numbered>::new();
    let _ = map.insert::<u32, _>(Multiple::new(0, 1u32));
    let _ = map.insert::<u64, _>(Multiple::new(0, 2u64));
    assert_eq!(map.len(), 2);
    assert_eq!(map.get::<u32, _>(&0).expect("filed").value, 1);
    assert_eq!(map.get::<u64, _>(&0).expect("filed").value, 2);
    let _ = map.remove_entry::<u32, _>(&0);
    assert_eq!(map.get::<u32, _>(&0), None);
    assert_eq!(map.get::<u64, _>(&0).expect("filed").value, 2);
}

#[test]
fn clone_agrees_and_is_independent() {
    let mut map = TypeMap::<MultiValued, Numbered>::new();
    let _ = map.insert::<u32, _>(Multiple::new(1, 10u32));
    let _ = map.insert::<u64, _>(Multiple::new(1, 20u64));
    let mut copy = map.clone();
    assert_eq!(copy.len(), map.len());
    assert_eq!(copy.get::<u32, _>(&1), map.get::<u32, _>(&1));
    assert_eq!(copy.get::<u64, _>(&1), map.get::<u64, _>(&1));
    assert_eq!(copy.get::<u8, _>(&1), map.get::<u8, _>(&1));
    *copy.get_mut::<u32, _>(&1).expect("filed") = 99;
    let _ = copy.insert::<u8, _>(Multiple::new(4, 4u8));
    let _ = copy.remove_entry::<u64, _>(&1);
    assert_eq!(map.get::<u32, _>(&1).expect("filed").value, 10);
    assert_eq!(map.get::<u64, _>(&1).expect("filed").value, 20);
    assert_eq!(map.get::<u8, _>(&4), None);
    assert_eq!(map.len(), 2);
    assert_eq!(copy.len(), 2);
}

#[test]
fn equality_is_reflexive_and_order_free() {
    let mut a = TypeMap::<Singleton, Ints>::new();
    let mut b = TypeMap::<Singleton, Ints>::new();
    let _ = a.insert::<u8, _>(Just::new(1u8));
    let _ = a.insert::<u32, _>(Just::new(3u32));
    let _ = a.insert::<u64, _>(Just::new(4u64));
    let _ = b.insert::<u64, _>(Just::new(4u64));
    let _ = b.insert::<u8, _>(Just::new(1u8));
    let _ = b.insert::<u32, _>(Just::new(3u32));
    assert!(a.equals(&a));
    assert!(a.equals(&b));
    assert!(b.equals(&a));
    let _ = b.insert::<u16, _>(Just::new(2u16));
    assert!(!a.equals(&b));
    let _ = b.remove_entry::<u16, _>(&());
    let _ = b.insert::<u32, _>(Just::new(30u32));
    assert!(!a.equals(&b));
}

#[test]
fn singleton_scenario() {
    let mut map = TypeMap::<Singleton, WithFloat>::new();
    let _ = map.insert::<u32, _>(Just::new(42u32));
    let _ = map.insert::<f64, _>(Just::new(3.14f64));
    assert_eq!(map.len(), 2);
    assert_eq!(map.get_default::<u32, _>().expect("filed").some, 42);
    assert_eq!(map.get_default::<f64, _>().expect("filed").some, 3.14f64);
    assert_eq!(map.get_default::<u64, _>(), None);
}

#[test]
fn multiple_scenario() {
    let mut map = TypeMap::<MultiValued, Numbered>::new();
    let _ = map.insert::<u32, _>(Multiple::new(0, 42u32));
    let _ = map.insert::<u32, _>(Multiple::new(1, 1337u32));
    assert_eq!(map.get::<u32, _>(&0).expect("filed").value, 42);
    assert_eq!(map.get::<u32, _>(&1).expect("filed").value, 1337);
    assert_eq!(map.get::<u64, _>(&0), None);
}

#[test]
fn many_keys_survive_growth_and_removal() {
    let mut map = TypeMap::<MultiValued, Numbered>::with_capacity(4);
    for k in 0..500u32 {
        assert_eq!(map.insert::<u32, _>(Multiple::new(k, k * 2)), None);
        assert_eq!(map.insert::<u64, _>(Multiple::new(k, k as u64 + 1)), None);
    }
    assert_eq!(map.len(), 1000);
    for k in (0..500u32).step_by(3) {
        assert_eq!(map.remove_entry::<u32, _>(&k), Some(Multiple::new(k, k * 2)));
    }
    for k in 0..500u32 {
        let expect = if k % 3 == 0 { None } else { Some(Multiple::new(k, k * 2)) };
        assert_eq!(map.get::<u32, _>(&k).cloned(), expect);
        assert_eq!(map.get::<u64, _>(&k), Some(&Multiple::new(k, k as u64 + 1)));
    }
    assert_eq!(map.len(), 1000 - 167);
}

#[test]
fn reserve_shrink_and_clear() {
    let mut map = TypeMap::<Singleton, Ints>::new();
    let _ = map.insert::<u8, _>(Just::new(8u8));
    map.reserve(100);
    assert!(map.capacity() >= 101);
    assert_eq!(map.get_default::<u8, _>(), Some(&Just::new(8u8)));
    map.shrink_to_fit();
    assert!(map.capacity() >= 1);
    assert_eq!(map.get_default::<u8, _>(), Some(&Just::new(8u8)));
    map.clear();
    assert_eq!(map.len(), 0);
    assert_eq!(map.get_default::<u8, _>(), None);
}

#[test]
fn with_capacity_starts_empty() {
    let map = TypeMap::<Singleton, Ints>::with_capacity(32);
    assert_eq!(map.len(), 0);
    assert!(map.capacity() >= 32);
}

#[test]
fn single_type_storage() {
    let mut map = TypeMap::<MultiValued, Many<u16>>::new();
    let _ = map.insert::<u16, _>(Multiple::new(1, 10u16));
    let _ = map.insert::<u16, _>(Multiple::new(2, 20u16));
    assert_eq!(map.get::<u16, _>(&2), Some(&Multiple::new(2, 20u16)));
    assert_eq!(map.len(), 2);
}

#[test]
fn record_equality_checks_type_and_entry() {
    let a: Sum<One<u8>, Sum<One<u16>, Nil>> = Sum::Head(InnerEntry::new(Just::new(1u8)));
    let b: Sum<One<u8>, Sum<One<u16>, Nil>> = Sum::Head(InnerEntry::new(Just::new(1u8)));
    let c: Sum<One<u8>, Sum<One<u16>, Nil>> = Sum::Head(InnerEntry::new(Just::new(2u8)));
    let d: Sum<One<u8>, Sum<One<u16>, Nil>> =
        Sum::Tail(Sum::Head(InnerEntry::new(Just::new(1u16))));
    assert!(a.eq_dyn(&b));
    assert!(a.ne_dyn(&c));
    assert!(a.ne_dyn(&d));
}

#[test]
fn inner_entry_accessors() {
    let mut e: Many<u32> = InnerEntry::new(Multiple::new(3, 30u32));
    assert_eq!(*e.key(), 3);
    assert_eq!(*e.value(), 30);
    *e.value_mut() = 31;
    assert_eq!(e.entry(), &Multiple::new(3, 31u32));
    assert_eq!(e.into_entry(), Multiple::new(3, 31u32));
}

#[test]
fn into_box_keeps_value() {
    assert_eq!(*5u32.into_box(), 5u32);
}

#[test]
fn mix_values() {
    assert_eq!(mix(0, 0), 0);
    assert_eq!(mix(1, 0), MIX);
    assert_eq!(mix(0, 1), MIX);
    assert_eq!(mix(3, 3), 0);
    assert_eq!(mix(2, 0), MIX.wrapping_mul(2));
}

#[test]
fn just_accessors() {
    let mut j = Just::new(4u8);
    assert_eq!(*j.get(), 4);
    *j.get_mut() = 5;
    assert_eq!(j.some, 5);
}
