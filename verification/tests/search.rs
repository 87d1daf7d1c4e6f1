use brep_tessellation::search::{by_search_nearest_parameter, by_search_parameter, SEARCH_TRIALS};
use std::cell::RefCell;

type Call = (i32, Option<i32>, usize);

fn recorder<'a>(calls: &'a RefCell<Vec<Call>>, good: &'a [Option<i32>]) -> impl Fn(&u8, i32, Option<i32>, usize) -> Option<i32> + 'a {
    move |_s: &u8, q: i32, h: Option<i32>, n: usize| {
        calls.borrow_mut().push((q, h, n));
        if good.contains(&h) {
            Some(q + h.unwrap_or(0))
        } else {
            None
        }
    }
}

#[test]
fn search_gets_a_hundred_trials() {
    assert_eq!(SEARCH_TRIALS, 100);
}

#[test]
fn hint_that_works_is_enough() {
    let calls = RefCell::new(Vec::new());
    let good = [Some(3)];
    let found = by_search_parameter(&0u8, 40, Some(3), &recorder(&calls, &good));
    assert_eq!(found, Some(43));
    assert_eq!(*calls.borrow(), vec![(40, Some(3), 100)]);
}

#[test]
fn failed_hint_is_followed_by_a_search_without_one() {
    let calls = RefCell::new(Vec::new());
    let good = [None];
    let found = by_search_parameter(&0u8, 40, Some(3), &recorder(&calls, &good));
    assert_eq!(found, Some(40));
    assert_eq!(*calls.borrow(), vec![(40, Some(3), 100), (40, None, 100)]);
}

#[test]
fn two_failures_give_nothing() {
    let calls = RefCell::new(Vec::new());
    let good: [Option<i32>; 0] = [];
    let found = by_search_nearest_parameter(&0u8, 40, None, &recorder(&calls, &good));
    assert_eq!(found, None);
    assert_eq!(*calls.borrow(), vec![(40, None, 100), (40, None, 100)]);
}
