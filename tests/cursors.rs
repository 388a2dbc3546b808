use pull_iter::{Filter, Iterator, MapIter, Vec};

#[test]
fn vec_to_iterator() {
    let mut v = Vec::<i32>::new();
    v.add(1);
    v.add(2);

    let mut iter = v.iter();
    assert_eq!(iter.next(), Some(&1));
    assert_eq!(iter.next(), Some(&2));
    assert_eq!(iter.next(), None);
}

#[test]
fn vec_to_iterator_mutable() {
    let mut v = Vec::new();
    v.add(1);
    v.add(2);

    let mut iter_mut = v.iter_mut();
    assert_eq!(iter_mut.next(), Some(&mut 1));
    assert_eq!(iter_mut.next(), Some(&mut 2));
    assert_eq!(iter_mut.next(), None);
}

#[test]
fn vec_to_iterator_mutable_zero_sized() {
    let mut v = Vec::<i32>::new();
    let mut iter_mut = v.iter_mut();
    assert_eq!(iter_mut.next(), None);
}

#[test]
fn vec_to_iterator_mutable_change_value() {
    let mut v = Vec::new();
    v.add(1);
    v.add(2);

    let mut iter_mut = v.iter_mut();
    let first = iter_mut.next();
    if let Some(value) = first {
        *value = 10;
    }

    let mut it = v.iter_mut();
    assert_eq!(it.next(), Some(&mut 10));
}

#[test]
fn iterator_filter() {
    let mut v = Vec::new();
    v.add(1);
    v.add(2);
    v.add(3);

    let mut it = v.iter().filter(|&v| v % 2 == 1);
    assert_eq!(it.next(), Some(&1));
    assert_eq!(it.next(), Some(&3));
    assert_eq!(it.next(), None);
}

#[test]
fn find() {
    let mut v = Vec::new();
    v.add(1);
    v.add(2);

    assert_eq!(v.iter().find(|&v| *v == 1), Some(&1));
    assert_eq!(v.iter().find(|&v| *v == 3), None);
}

#[test]
fn map() {
    let mut v = Vec::new();
    v.add(1);
    v.add(2);

    let mut it = v.iter().map(|v| v * 2);
    assert_eq!(it.next(), Some(2));
    assert_eq!(it.next(), Some(4));
    assert_eq!(it.next(), None);
}

#[test]
fn fold() {
    let mut v = Vec::new();
    v.add(1);
    v.add(2);
    v.add(3);

    let sum = v.iter().fold(0, |i, v| i + v);
    assert_eq!(6, sum);
}

fn one_two_three() -> Vec<i32> {
    let mut v = Vec::new();
    v.add(1);
    v.add(2);
    v.add(3);
    v
}

#[test]
fn read_cursor_stays_exhausted() {
    let v = one_two_three();
    let mut it = v.iter();
    assert_eq!(it.next(), Some(&1));
    assert_eq!(it.next(), Some(&2));
    assert_eq!(it.next(), Some(&3));
    assert_eq!(it.next(), None);
    assert_eq!(it.next(), None);
    assert_eq!(it.next(), None);
}

#[test]
fn read_cursor_over_empty_container() {
    let v = Vec::<i32>::new();
    let mut it = v.iter();
    assert_eq!(it.next(), None);
    assert_eq!(it.next(), None);
}

#[test]
fn two_read_cursors_coexist() {
    let v = one_two_three();
    let mut a = v.iter();
    let mut b = v.iter();
    assert_eq!(a.next(), Some(&1));
    assert_eq!(a.next(), Some(&2));
    assert_eq!(b.next(), Some(&1));
    assert_eq!(a.next(), Some(&3));
    assert_eq!(b.next(), Some(&2));
}

#[test]
fn exclusive_cursor_stays_exhausted() {
    let mut v = one_two_three();
    let mut it = v.iter_mut();
    assert_eq!(it.next(), Some(&mut 1));
    assert_eq!(it.next(), Some(&mut 2));
    assert_eq!(it.next(), Some(&mut 3));
    assert_eq!(it.next(), None);
    assert_eq!(it.next(), None);
}

#[test]
fn exclusive_cursor_empty_stays_exhausted() {
    let mut v = Vec::<u8>::new();
    let mut it = v.iter_mut();
    assert_eq!(it.next(), None);
    assert_eq!(it.next(), None);
}

#[test]
fn exclusive_cursor_writes_are_seen_by_read_cursor() {
    let mut v = one_two_three();
    {
        let mut it = v.iter_mut();
        let a = it.next().unwrap();
        let b = it.next().unwrap();
        let c = it.next().unwrap();
        *c = 30;
        *a = 10;
        *b += 18;
    }
    let mut it = v.iter();
    assert_eq!(it.next(), Some(&10));
    assert_eq!(it.next(), Some(&20));
    assert_eq!(it.next(), Some(&30));
    assert_eq!(it.next(), None);
}

#[test]
fn exclusive_cursor_writes_only_the_element_handed_out() {
    let mut v = one_two_three();
    {
        let mut it = v.iter_mut();
        it.next();
        if let Some(x) = it.next() {
            *x = -2;
        }
    }
    let mut it = v.iter();
    assert_eq!(it.next(), Some(&1));
    assert_eq!(it.next(), Some(&-2));
    assert_eq!(it.next(), Some(&3));
    assert_eq!(it.next(), None);
}

#[test]
fn exclusive_cursor_keeps_rest() {
    let mut v = one_two_three();
    let mut it = v.iter_mut();
    assert_eq!(it.rest.len(), 3);
    it.next();
    assert_eq!(it.rest.len(), 2);
    assert_eq!(it.rest[0], 2);
}

#[test]
fn filter_odd_of_one_two_three() {
    let v = one_two_three();
    let mut it = v.iter().filter(|v| **v % 2 == 1);
    assert_eq!(it.next(), Some(&1));
    assert_eq!(it.next(), Some(&3));
    assert_eq!(it.next(), None);
    assert_eq!(it.next(), None);
}

#[test]
fn filter_with_no_match_is_exhausted() {
    let v = one_two_three();
    let mut it = v.iter().filter(|v| **v > 10);
    assert_eq!(it.next(), None);
    assert_eq!(it.next(), None);
}

#[test]
fn filter_keeps_all_when_all_match() {
    let v = one_two_three();
    let mut it = v.iter().filter(|_| true);
    assert_eq!(it.next(), Some(&1));
    assert_eq!(it.next(), Some(&2));
    assert_eq!(it.next(), Some(&3));
    assert_eq!(it.next(), None);
}

#[test]
fn filter_built_directly() {
    let v = one_two_three();
    let mut it = Filter::new(v.iter(), |v: &&i32| **v != 2);
    assert_eq!(it.next(), Some(&1));
    assert_eq!(it.next(), Some(&3));
    assert_eq!(it.next(), None);
}

#[test]
fn map_doubles_one_two_three() {
    let v = one_two_three();
    let mut it = v.iter().map(|v| v * 2);
    assert_eq!(it.next(), Some(2));
    assert_eq!(it.next(), Some(4));
    assert_eq!(it.next(), Some(6));
    assert_eq!(it.next(), None);
    assert_eq!(it.next(), None);
}

#[test]
fn map_changes_item_type() {
    let v = one_two_three();
    let mut it = v.iter().map(|v| *v > 1);
    assert_eq!(it.next(), Some(false));
    assert_eq!(it.next(), Some(true));
    assert_eq!(it.next(), Some(true));
    assert_eq!(it.next(), None);
}

#[test]
fn map_built_directly() {
    let v = one_two_three();
    let mut it = MapIter::new(v.iter(), |v: &i32| v + 100);
    assert_eq!(it.next(), Some(101));
    assert_eq!(it.next(), Some(102));
    assert_eq!(it.next(), Some(103));
    assert_eq!(it.next(), None);
}

#[test]
fn map_over_empty_container() {
    let v = Vec::<i32>::new();
    let mut it = v.iter().map(|v| v * 2);
    assert_eq!(it.next(), None);
}

#[test]
fn adapters_compose() {
    let v = one_two_three();
    let mut it = v.iter().map(|v| v * 10).filter(|v| *v != 20).map(|v| v + 1);
    assert_eq!(it.next(), Some(11));
    assert_eq!(it.next(), Some(31));
    assert_eq!(it.next(), None);
}

#[test]
fn fold_sums_one_two_three() {
    let v = one_two_three();
    assert_eq!(v.iter().fold(0, |a, v| a + v), 6);
}

#[test]
fn fold_over_nothing_returns_init() {
    let v = Vec::<i32>::new();
    assert_eq!(v.iter().fold(42, |a, v| a + v), 42);
}

#[test]
fn fold_goes_left_to_right() {
    let v = one_two_three();
    assert_eq!(v.iter().fold(0, |a, v| a * 10 + v), 123);
}

#[test]
fn fold_uses_only_what_is_left() {
    let v = one_two_three();
    let mut it = v.iter();
    it.next();
    assert_eq!(it.fold(0, |a, v| a * 10 + v), 23);
}

#[test]
fn find_in_one_two_three() {
    let v = one_two_three();
    assert_eq!(v.iter().find(|v| **v == 1), Some(&1));
    assert_eq!(v.iter().find(|v| **v == 3), Some(&3));
    assert_eq!(v.iter().find(|v| **v == 5), None);
}

#[test]
fn find_resumes_after_match() {
    let mut v = Vec::new();
    v.add(4);
    v.add(7);
    v.add(4);
    v.add(9);
    let mut it = v.iter();
    assert_eq!(it.find(|v| **v == 4), Some(&4));
    assert_eq!(it.next(), Some(&7));
    assert_eq!(it.find(|v| **v == 4), Some(&4));
    assert_eq!(it.next(), Some(&9));
    assert_eq!(it.next(), None);
}

#[test]
fn find_returns_first_match() {
    let v = one_two_three();
    let mut it = v.iter();
    assert_eq!(it.find(|v| **v >= 2), Some(&2));
    assert_eq!(it.next(), Some(&3));
}

#[test]
fn find_without_match_exhausts() {
    let v = one_two_three();
    let mut it = v.iter();
    assert_eq!(it.find(|v| **v == 5), None);
    assert_eq!(it.next(), None);
}

#[test]
fn find_on_exclusive_cursor() {
    let mut v = one_two_three();
    {
        let mut it = v.iter_mut();
        if let Some(x) = it.find(|x| **x == 2) {
            *x = 200;
        }
    }
    let mut it = v.iter();
    assert_eq!(it.next(), Some(&1));
    assert_eq!(it.next(), Some(&200));
    assert_eq!(it.next(), Some(&3));
}
