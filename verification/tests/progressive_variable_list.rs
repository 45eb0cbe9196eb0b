use arbitrary::{Arbitrary, Unstructured};
use ssz_types::progressive_variable_list::MAX_ELEMENTS_TO_PRE_ALLOCATE;
use ssz_types::ssz_element::{SszElement, MAX_LENGTH_VALUE};
use ssz_types::{Error, ProgressiveVariableList, SszError};

#[test]
fn new_and_push_unbounded() {
    let mut list: ProgressiveVariableList<u64, 0> =
        ProgressiveVariableList::new(vec![1, 2, 3]).unwrap();
    assert_eq!(list.as_slice(), &[1, 2, 3]);
    list.push(4).unwrap();
    assert_eq!(list.as_slice(), &[1, 2, 3, 4]);
    assert_eq!(list.len(), 4);
}

#[test]
fn limit_bounds_construction() {
    type Bounded = ProgressiveVariableList<u64, 4>;
    for len in [0, 3, 4] {
        let values = vec![1; len];
        assert_eq!(Bounded::new(values.clone()).unwrap().as_slice(), values);
        assert_eq!(Bounded::try_from(values.clone()).unwrap().as_slice(), values);
        assert_eq!(
            Bounded::try_from_iter(&mut values.clone().into_iter()).unwrap().as_slice(),
            values
        );
    }
    let err = Error::OutOfBounds { i: 5, len: 4 };
    assert_eq!(Bounded::new(vec![1; 5]), Err(err.clone()));
    assert_eq!(Bounded::try_from(vec![1; 5]), Err(err.clone()));
    let mut iter = (0..5).chain(std::iter::once_with(|| -> u64 { panic!("iterated past the limit") }));
    assert_eq!(Bounded::try_from_iter(&mut iter), Err(err));
    assert_eq!(
        ProgressiveVariableList::<u64, 0>::try_from_iter(&mut (0..5))
            .unwrap()
            .len(),
        5
    );
}

#[test]
fn limit_bounds_push() {
    let mut list = ProgressiveVariableList::<u64, 4>::new(vec![1, 2, 3]).unwrap();
    list.push(4).unwrap();
    assert_eq!(list.push(5), Err(Error::OutOfBounds { i: 5, len: 4 }));
    assert_eq!(list.as_slice(), &[1, 2, 3, 4]);
}

/// Yields the items of a `Vec` but claims a size hint of `usize::MAX`.
struct LyingIter(std::vec::IntoIter<u64>);

impl Iterator for LyingIter {
    type Item = u64;

    fn next(&mut self) -> Option<u64> {
        self.0.next()
    }

    fn size_hint(&self) -> (usize, Option<usize>) {
        (usize::MAX, Some(usize::MAX))
    }
}

#[test]
fn try_from_iter_reserves_the_exact_size_hint() {
    let list = ProgressiveVariableList::<u64, 0>::try_from_iter(&mut (0..100)).unwrap();
    assert_eq!(list.capacity(), 100);
}

#[test]
fn try_from_iter_caps_a_lying_size_hint_at_the_limit() {
    let mut iter = LyingIter(vec![1, 2, 3].into_iter());
    let list = ProgressiveVariableList::<u64, 4>::try_from_iter(&mut iter).unwrap();
    assert_eq!(list.as_slice(), &[1, 2, 3]);
    assert_eq!(list.capacity(), 4);
}

#[test]
fn try_from_iter_caps_a_lying_size_hint_without_a_limit() {
    let mut iter = LyingIter(vec![1, 2, 3].into_iter());
    let list = ProgressiveVariableList::<u64, 0>::try_from_iter(&mut iter).unwrap();
    assert_eq!(list.as_slice(), &[1, 2, 3]);
    assert_eq!(list.capacity(), MAX_ELEMENTS_TO_PRE_ALLOCATE);
}

#[test]
fn try_from_iter_takes_one_item_past_the_limit_and_no_more() {
    let mut iter = 10u64..20;
    assert_eq!(
        ProgressiveVariableList::<u64, 3>::try_from_iter(&mut iter),
        Err(Error::OutOfBounds { i: 4, len: 3 })
    );
    assert_eq!(iter.next(), Some(14));
    let mut iter = 10u64..13;
    let list = ProgressiveVariableList::<u64, 3>::try_from_iter(&mut iter).unwrap();
    assert_eq!(list.as_slice(), &[10, 11, 12]);
    assert_eq!(iter.next(), None);
}

#[test]
fn limit_bounds_arbitrary() {
    let data = [1; 32];
    let unbounded = ProgressiveVariableList::<u8, 0>::truncating_new(
        Vec::<u8>::arbitrary(&mut Unstructured::new(&data)).unwrap(),
    );
    let bounded = ProgressiveVariableList::<u8, 4>::truncating_new(
        Vec::<u8>::arbitrary(&mut Unstructured::new(&data)).unwrap(),
    );
    assert!(unbounded.len() > 4);
    assert_eq!(bounded.as_slice(), &unbounded.as_slice()[..4]);
}

fn ssz_round_trip<T, const N: usize>(item: ProgressiveVariableList<T, N>)
where
    T: SszElement + std::fmt::Debug + PartialEq,
{
    let encoded = &item.as_ssz_bytes();
    assert_eq!(item.ssz_bytes_len(), encoded.len());
    assert_eq!(
        ProgressiveVariableList::<T, N>::from_ssz_bytes(encoded),
        Ok(item)
    );
}

#[test]
fn ssz_round_trip_bytes() {
    ssz_round_trip::<u8, 0>(ProgressiveVariableList::new(vec![]).unwrap());
    ssz_round_trip::<u8, 0>(ProgressiveVariableList::new(vec![42; 100]).unwrap());
    // Serializes identically to a plain byte-list.
    let bytes = ProgressiveVariableList::<u8, 0>::new(vec![1, 2, 3]).unwrap();
    assert_eq!(bytes.as_ssz_bytes(), vec![1, 2, 3]);
}

#[test]
fn ssz_round_trip_u64() {
    ssz_round_trip::<u64, 0>(ProgressiveVariableList::new(vec![42; 9]).unwrap());
}

#[test]
fn max_len_reports_optional_limit() {
    assert_eq!(ProgressiveVariableList::<u64, 0>::max_len(), None);
    assert_eq!(ProgressiveVariableList::<u64, 4>::max_len(), Some(4));
}

#[test]
fn limit_bounds_fixed_len_ssz_decode() {
    let ok = ProgressiveVariableList::<u64, 0>::new(vec![1, 2, 3, 4])
        .unwrap()
        .as_ssz_bytes();
    assert!(ProgressiveVariableList::<u64, 4>::from_ssz_bytes(&ok).is_ok());

    let too_many = ProgressiveVariableList::<u64, 0>::new(vec![1, 2, 3, 4, 5])
        .unwrap()
        .as_ssz_bytes();
    assert!(ProgressiveVariableList::<u64, 4>::from_ssz_bytes(&too_many).is_err());

    assert!(ProgressiveVariableList::<u64, 0>::from_ssz_bytes(&too_many).is_ok());
}

#[test]
fn limit_bounds_variable_len_ssz_decode() {
    type Inner = ProgressiveVariableList<u8, 0>;
    let items: Vec<Inner> = (0..5)
        .map(|_| ProgressiveVariableList::new(vec![1]).unwrap())
        .collect();
    let encoded = ProgressiveVariableList::<Inner, 0>::new(items)
        .unwrap()
        .as_ssz_bytes();

    assert!(ProgressiveVariableList::<Inner, 4>::from_ssz_bytes(&encoded).is_err());
    assert!(ProgressiveVariableList::<Inner, 0>::from_ssz_bytes(&encoded).is_ok());
}

#[test]
fn limit_bounds_byte_list_ssz_decode() {
    let encoded = ProgressiveVariableList::<u8, 0>::new(vec![0; 5])
        .unwrap()
        .as_ssz_bytes();
    assert!(ProgressiveVariableList::<u8, 4>::from_ssz_bytes(&encoded).is_err());
    assert!(ProgressiveVariableList::<u8, 0>::from_ssz_bytes(&encoded).is_ok());
}

#[test]
fn limit_does_not_change_encoding_or_root() {
    let values = vec![9u64, 8, 7];
    let unbounded = ProgressiveVariableList::<u64, 0>::new(values.clone()).unwrap();
    let bounded = ProgressiveVariableList::<u64, 256>::new(values).unwrap();
    assert_eq!(unbounded.as_ssz_bytes(), bounded.as_ssz_bytes());
}
