use dependent_map::{InnerEntry, Just, MultiValued, Multiple, Nil, Singleton, Sum, TypeMap};

#[derive(Clone, Copy, Debug, PartialEq)]
struct A(i32);
#[derive(Clone, Copy, Debug, PartialEq)]
struct B(i32);
#[derive(Clone, Copy, Debug, PartialEq)]
struct C(i32);
#[derive(Clone, Copy, Debug, PartialEq)]
struct D(i32);
#[derive(Clone, Copy, Debug, PartialEq)]
struct E(i32);
#[derive(Clone, Copy, Debug, PartialEq)]
struct F(i32);
#[derive(Clone, Copy, Debug, PartialEq)]
struct J(i32);

type One<T> = InnerEntry<Singleton, T>;
type Many<T> = InnerEntry<MultiValued, T>;

type Scalars = Sum<One<u32>, Sum<One<f32>, Sum<One<u64>, Nil>>>;
type Letters =
    Sum<One<A>, Sum<One<B>, Sum<One<C>, Sum<One<D>, Sum<One<E>, Sum<One<F>, Sum<One<J>, Nil>>>>>>>;

#[test]
fn test_some() {
    let mut map = TypeMap::<Singleton, Scalars>::new();
    let _ = map.insert::<u32, _>(Just::new(42u32));
    let _ = map.insert::<f32, _>(Just::new(3.14159f32));

    assert_eq!(map.len(), 2);
    assert_eq!(map.get_default::<u32, _>().expect("").some, 42);
    assert_eq!(map.get_default::<f32, _>().expect("").some, 3.14159f32);
    assert_eq!(map.get_default::<u64, _>(), None);
}

#[test]
fn test_multiple() {
    let mut map = TypeMap::<MultiValued, Sum<Many<u32>, Sum<Many<u64>, Nil>>>::new();
    let _ = map.insert::<u32, _>(Multiple::new(0, 42u32));
    let _ = map.insert::<u32, _>(Multiple::new(1, 1337u32));

    assert_eq!(map.len(), 2);
    assert_eq!(map.get::<u32, _>(&0).expect("").value, 42);
    assert_eq!(map.get::<u32, _>(&1).expect("").value, 1337);
    assert_eq!(map.get::<u64, _>(&0), None);
}

#[test]
fn test_default() {
    let map: TypeMap<Singleton, Scalars> = Default::default();
    assert_eq!(map.len(), 0);
}

#[test]
fn test_clone() {
    let mut map: TypeMap<Singleton, Letters> = Default::default();
    let _ = map.insert::<A, _>(Just::new(A(1)));
    let _ = map.insert::<B, _>(Just::new(B(2)));
    let _ = map.insert::<D, _>(Just::new(D(3)));
    let _ = map.insert::<E, _>(Just::new(E(4)));
    let _ = map.insert::<F, _>(Just::new(F(5)));
    let _ = map.insert::<J, _>(Just::new(J(6)));
    let map2 = map.clone();
    assert_eq!(map2.len(), 6);
    assert_eq!(map2.get_default::<A, _>().expect("").some, A(1));
    assert_eq!(map2.get_default::<B, _>().expect("").some, B(2));
    assert_eq!(map2.get_default::<C, _>(), None::<&Just<C>>);
    assert_eq!(map2.get_default::<D, _>().expect("").some, D(3));
    assert_eq!(map2.get_default::<E, _>().expect("").some, E(4));
    assert_eq!(map2.get_default::<F, _>().expect("").some, F(5));
    assert_eq!(map2.get_default::<J, _>().expect("").some, J(6));
}

#[test]
fn test_compare() {
    type Comparable = Sum<One<u8>, Sum<One<u16>, Sum<One<u32>, Nil>>>;
    let mut map: TypeMap<Singleton, Comparable> = Default::default();
    let mut map2: TypeMap<Singleton, Comparable> = Default::default();
    let _ = map.insert::<u8, _>(Just::new(1u8));
    let _ = map.insert::<u16, _>(Just::new(2u16));
    let _ = map.insert::<u32, _>(Just::new(3u32));
    let _ = map2.insert::<u8, _>(Just::new(10u8));
    let _ = map2.insert::<u16, _>(Just::new(2u16));
    let _ = map2.insert::<u32, _>(Just::new(3u32));
    assert!(map.equals(&map)); // reflexivity
    assert!(!map.equals(&map2)); // inequality
}

fn assert_send<T: Send>() {}
fn assert_sync<T: Sync>() {}
fn assert_clone<T: Clone>() {}

#[test]
fn test_varieties() {
    assert_send::<TypeMap<Singleton, Letters>>();
    assert_sync::<TypeMap<Singleton, Letters>>();
    assert_clone::<TypeMap<Singleton, Letters>>();
    let mut map: TypeMap<MultiValued, Sum<Many<A>, Sum<Many<B>, Nil>>> = Default::default();
    let _ = map.insert::<A, _>(Multiple::new(0, A(42)));
    let _ = map.insert::<B, _>(Multiple::new(1, B(1337)));
    assert_eq!(map.len(), 2);
}
