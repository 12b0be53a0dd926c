//! The container and scan helpers: queue, search tree, extrema, sorting,
//! tallying, and the generated streams.

use mandelbrot::cities::{sort_cities, City};
use mandelbrot::cmp_util::less_than_nan;
use mandelbrot::extrema::{find_extrema, find_extrema_ref};
use mandelbrot::iter::{fibonacci, fibonacci_mut, MyRange};
use mandelbrot::queue::Queue;
use mandelbrot::extrema::smallest;
use mandelbrot::tree::BinaryTree;
use mandelbrot::votes::count_votes;
use std::cmp::Ordering;

#[test]
fn test_queue_push_pop() {
    let mut q: Queue<char> = Queue::new();
    assert!(q.is_empty());
    q.push('0');
    q.push('1');
    assert!(!q.is_empty());
    assert_eq!(q.pop(), Some('0'));
    q.push('=');
    assert_eq!(q.pop(), Some('1'));
    assert_eq!(q.pop(), Some('='));
    assert_eq!(q.pop(), None);
    assert!(q.is_empty());
}

#[test]
fn test_queue_split() {
    let mut q: Queue<char> = Queue::new();
    q.push('0');
    q.push('1');
    q.push('2');
    let _ = q.pop();
    q.push('=');
    let (older, younger) = q.split();
    assert_eq!(older, vec!['2', '1']);
    assert_eq!(younger, vec!['=']);
}

#[test]
fn test_smallest() {
    let v = vec![3, 1, 4, 1, 5];
    assert_eq!(*smallest(&v), 1);
    let w = vec![7, -2, 9];
    assert_eq!(*smallest(&w), -2);
}

#[test]
fn test_find_extrema() {
    let a: Vec<i64> = vec![4, -1, 9, 0];
    let e = find_extrema(&a);
    assert_eq!(e.least, -1);
    assert_eq!(e.greatest, 9);
    let f: Vec<f64> = vec![1.5, -0.25, 3.75];
    let ef = find_extrema(&f);
    assert_eq!(ef.least, -0.25);
    assert_eq!(ef.greatest, 3.75);
}

#[test]
fn test_find_extrema_ref() {
    let a: Vec<i64> = vec![10, 2, 30, 4];
    let e = find_extrema_ref(&a);
    assert_eq!(*e.least, 2);
    assert_eq!(*e.greatest, 30);
}

#[test]
fn test_tree_add() {
    let mut tree: BinaryTree<i64> = BinaryTree::Empty;
    assert!(tree.add(5));
    assert!(tree.add(3));
    assert!(tree.add(8));
    assert!(tree.add(7));
    assert!(!tree.add(3));
    assert!(!tree.add(5));
    assert!(tree.add(1));
}

#[test]
fn test_sort_cities() {
    let mut cities = vec![
        City {
            name: "Dublin".to_string(),
            population: 1_000_000,
            country: "Ireland".to_string(),
        },
        City {
            name: "Belfast".to_string(),
            population: 500_000,
            country: "Ireland".to_string(),
        },
        City {
            name: "London".to_string(),
            population: 10_000_000,
            country: "England".to_string(),
        },
    ];
    sort_cities(&mut cities);
    let names: Vec<&str> = cities.iter().map(|c| c.name.as_str()).collect();
    assert_eq!(names, vec!["London", "Dublin", "Belfast"]);
}

#[test]
fn test_count_votes() {
    let ballots = vec![
        "bob".to_string(),
        "john".to_string(),
        "anna".to_string(),
        "bob".to_string(),
        "anna".to_string(),
        "anna".to_string(),
    ];
    let tally = count_votes(&ballots);
    assert_eq!(tally.len(), 3);
    let get = |name: &str| {
        tally
            .iter()
            .find(|(n, _)| n == name)
            .map(|(_, c)| *c)
            .unwrap()
    };
    assert_eq!(get("bob"), 2);
    assert_eq!(get("john"), 1);
    assert_eq!(get("anna"), 3);
}

#[test]
fn test_fibonacci() {
    let f = fibonacci(10);
    assert_eq!(f, vec![1, 2, 3, 5, 8, 13, 21, 34, 55, 89]);
    assert_eq!(fibonacci(0), Vec::<u64>::new());
}

#[test]
fn test_fibonacci_mut() {
    let mut state: (u64, u64) = (0, 1);
    let f = fibonacci_mut(&mut state, 10);
    assert_eq!(f, vec![1, 2, 3, 5, 8, 13, 21, 34, 55, 89]);
    assert_eq!(state, (55, 89));
}

#[test]
fn test_my_range() {
    let mut m_iter = MyRange { start: 0, end: 10 };
    assert_eq!(m_iter.next(), Some(0));
    assert_eq!(m_iter.start, 1);
    m_iter.start = 11;
    assert_eq!(m_iter.next(), None);
}

#[test]
fn test_less_than_nan() {
    assert_eq!(less_than_nan(1.0f64, 2.0), Ordering::Less);
    assert_eq!(less_than_nan(2.0f64, 2.0), Ordering::Equal);
    assert_eq!(less_than_nan(3.0f64, 2.0), Ordering::Greater);
    assert_eq!(less_than_nan(f64::NAN, 2.0), Ordering::Less);
    assert_eq!(less_than_nan(2.0f64, f64::NAN), Ordering::Greater);
    let mut v = vec![1.0f32, 2.0, -3.0, 4.0, 5.0, f32::NAN];
    v.sort_by(|a, b| less_than_nan(*a, *b));
    assert!(v[0].is_nan());
    assert_eq!(&v[1..], &[-3.0, 1.0, 2.0, 4.0, 5.0]);
}
