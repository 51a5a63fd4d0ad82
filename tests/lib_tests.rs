use better_peekable::{BPeekable, BetterPeekable};
use rand::rngs::StdRng;
use rand::{Rng, SeedableRng};

fn left_count<I: Iterator>(mut bp: BPeekable<I>) -> usize {
    let mut count = 0;
    while bp.next().is_some() {
        count += 1;
    }
    count
}

fn front_position<I, F>(bp: &mut BPeekable<I>, mut predicate: F) -> Option<usize>
where
    I: Iterator,
    F: FnMut(I::Item) -> bool,
{
    let mut i = 0;
    while let Some(x) = bp.next() {
        if predicate(x) {
            return Some(i);
        }
        i += 1;
    }
    None
}

fn back_position<I, F>(bp: &mut BPeekable<I>, mut predicate: F) -> Option<usize>
where
    I: DoubleEndedIterator + ExactSizeIterator,
    F: FnMut(I::Item) -> bool,
{
    let mut i = bp.len();
    while let Some(x) = bp.next_back() {
        i -= 1;
        if predicate(x) {
            return Some(i);
        }
    }
    None
}

#[test]
fn lib_better_peekable_api() {
    let vec = vec![1, 2, 3, 4, 5, 6, 7, 8];
    let iter = vec.into_iter();
    let mut better_peeker = iter.better_peekable();
    // peek_n(8) when vector length == 8 should be out of bounds
    assert_eq!(better_peeker.peek_n(8), None);
    assert_eq!(better_peeker.peek_n(7), Some(&8));
    assert_eq!(better_peeker.peek(), Some(&1));
    assert_eq!(better_peeker.peek_n(1), Some(&2));
    assert_eq!(better_peeker.peek_n(2), Some(&3));
    assert_eq!(better_peeker.peek(), Some(&1));
    assert_eq!(better_peeker.peek_n(2), Some(&3));
    assert_eq!(better_peeker.next(), Some(1));
    assert_eq!(better_peeker.peek(), Some(&2));
    assert_eq!(better_peeker.next(), Some(2));
    assert_eq!(better_peeker.peek(), Some(&3));
}

#[test]
fn lib_better_peekable_heap_data() {
    let vec = vec![
        String::from("Hello"),
        String::from("World"),
        String::from("It's a nice day to make"),
        String::from("A better peekable iterator adaptor"),
        String::from("Peek_N and Peek are supposed to be"),
        String::from("Idempotent Methods"),
    ];
    let len = vec.len();
    println!("{}", len);
    let iter = vec.into_iter();
    let mut better_peeker = iter.better_peekable();

    assert_eq!(better_peeker.peek(), Some(&"Hello".to_string()));
    assert_eq!(better_peeker.peek(), Some(&"Hello".to_string()));
    assert_eq!(better_peeker.peek(), Some(&"Hello".to_string()));
    assert_eq!(better_peeker.peek_n(1), Some(&"World".to_string()));
    assert_eq!(better_peeker.next(), Some("Hello".to_string()));
    assert_eq!(better_peeker.next(), Some("World".to_string()));
    assert_eq!(
        better_peeker.peek(),
        Some(&"It's a nice day to make".to_string())
    );
    assert_eq!(
        better_peeker.peek_n(0),
        Some(&"It's a nice day to make".to_string())
    );
    assert_eq!(
        better_peeker.peek_n(1),
        Some(&"A better peekable iterator adaptor".to_string())
    );
    assert_eq!(
        better_peeker.nth(1),
        Some("A better peekable iterator adaptor".to_string())
    );
    assert_eq!(
        better_peeker.peek_n(1),
        Some(&"Idempotent Methods".to_string())
    );
}

#[test]
fn lib_iterations() {
    let mut bp = (0..100).better_peekable();
    let mut ap = (0..100).peekable();
    assert_eq!(ap.next(), bp.next());
    assert_eq!(ap.next(), bp.next());
    assert_eq!(ap.next(), bp.next());
    assert_eq!(ap.next(), bp.next());
    assert_eq!(ap.next(), bp.next());
    assert_eq!(ap.next(), bp.next());
    assert_eq!(ap.next(), bp.next());
}

#[test]
fn lib_iterator_methods_against_peekable() {
    // Peekable
    let mut ap = (0..100).peekable();
    // BetterPeekable
    let mut bp = (0..100).better_peekable();

    assert_eq!(ap.size_hint(), bp.size_hint());
    assert_eq!(ap.next(), bp.next()); // 0
    assert_eq!(ap.size_hint(), bp.size_hint());

    assert_eq!(ap.size_hint(), bp.size_hint());
    assert_eq!(ap.peek(), bp.peek()); // 1
    assert_eq!(ap.size_hint(), bp.size_hint());

    assert_eq!(ap.size_hint(), bp.size_hint());
    let _ = ap.peek();
    let _ = bp.peek_n(10);
    assert_eq!(ap.size_hint(), bp.size_hint());

    assert_eq!(ap.clone().count(), left_count(bp.clone()));
    assert_eq!(ap.nth(5), bp.nth(5)); // 6
    assert_eq!(
        {
            ap.nth(5); // 11
            ap.peek()
        },
        {
            bp.nth(5); // 11
            bp.peek()
        }
    );
    assert_eq!(ap.size_hint(), bp.size_hint());
    assert_eq!(ap.peek(), bp.peek());
    assert_eq!(ap.peek(), bp.peek());
}

#[test]
fn lib_double_ended_iterator_methods_against_standard_peekable() {
    // Normal iterator
    let mut ap = (0..100).peekable();
    let mut bp = (0..100).better_peekable();
    assert_eq!(ap.next_back(), bp.next_back());
    assert_eq!(ap.nth_back(10), bp.nth_back(10));
    assert_eq!(ap.rposition(|x| x == 50), back_position(&mut bp, |x| x == 50));
}

#[test]
fn lib_double_ended_iterator_methods_against_standard_iterator() {
    let mut rng = StdRng::seed_from_u64(123);
    // Normal iterator
    let mut ni = 0..100;
    let mut bp = (0..100).better_peekable();
    let (ni_back, bp_back) = (ni.next_back(), bp.next_back());
    assert_eq!(ni_back, bp_back);
    assert_eq!(ni.next(), bp.next());
    assert_eq!(ni.next(), bp.next());
    assert_eq!(ni.size_hint(), bp.size_hint());
    assert_eq!(ni.position(|x| x == 50), front_position(&mut bp, |x| x == 50));
    assert_eq!(ni.rposition(|x| x == 26), back_position(&mut bp, |x| x == 26));
    assert_eq!(ni.next_back(), bp.next_back());
    let x = rng.random_range(0..100_usize);
    assert_eq!(ni.nth_back(x), bp.nth_back(x));
    let x = rng.random_range(0..100_usize);
    assert_eq!(ni.nth_back(x), bp.nth_back(x));
    assert_eq!(ni.rposition(|x| x == 50), back_position(&mut bp, |x| x == 50));

    assert_eq!(ni.size_hint(), bp.size_hint());
}

#[test]
fn lib_double_ended_sanity_check() {
    let mut ni = 0..100;
    assert_eq!(Some(99), ni.next_back());

    let mut ap = (0..100).peekable();
    assert_eq!(Some(99), ap.next_back());

    let mut bp = (0..100).better_peekable();
    assert_eq!(Some(99), bp.next_back());

    let vec = vec![format!("1"), format!("2"), format!("3"), format!("4")];
    let location_1 = vec[0].as_ptr();
    let mut bap = vec.into_iter().better_peekable();

    assert_eq!(location_1, bap.peek().unwrap().as_ptr());
}


#[test]
fn test_peek_n_multiple_positions_bug() {
    let mut iter = (0..20).better_peekable();

    // First, peek at position 2
    assert_eq!(iter.peek_n(2), Some(&2));

    assert_eq!(iter.peek_n(5), Some(&5));

    // Verify we can still peek at intermediate positions
    assert_eq!(iter.peek_n(3), Some(&3));
    assert_eq!(iter.peek_n(4), Some(&4));

    // Now consume one item and try again
    assert_eq!(iter.next(), Some(0));

    // peek_n(7) from current position means we need item at index 8 overall
    // We need to load [6, 7, 8]
    assert_eq!(iter.peek_n(7), Some(&8));

    // Verify all the items in between are still accessible
    assert_eq!(iter.peek_n(0), Some(&1));
    assert_eq!(iter.peek_n(1), Some(&2));
    assert_eq!(iter.peek_n(6), Some(&7));
}

#[test]
fn test_peek_n_increasing_sequence() {
    let mut iter = (0..100).better_peekable();

    // Peek at increasing positions
    assert_eq!(iter.peek_n(1), Some(&1));

    assert_eq!(iter.peek_n(5), Some(&5));

    assert_eq!(iter.peek_n(10), Some(&10));
}

#[test]
fn lib_test_peek_n_after_next() {
    let mut iter = (0..20).better_peekable();

    // Initial peek
    assert_eq!(iter.peek_n(3), Some(&3));

    // Consume items
    assert_eq!(iter.next(), Some(0));
    assert_eq!(iter.next(), Some(1));

    // Now peek further ahead - needs to load more items
    assert_eq!(iter.peek_n(5), Some(&7));
    // We need item at absolute position 7 (2 + 5)

    // Verify it actually loaded them
    assert_eq!(iter.peek_n(4), Some(&6));
    assert_eq!(iter.peek_n(3), Some(&5));
}

#[test]
fn lib_test_peek_n_idempotent() {
    let mut iter = (0..20).better_peekable();

    // Multiple calls to same position should return same value
    assert_eq!(iter.peek_n(3), Some(&3));
    assert_eq!(iter.peek_n(3), Some(&3));
    assert_eq!(iter.peek_n(3), Some(&3));

    // And shouldn't prevent peeking further
    assert_eq!(iter.peek_n(7), Some(&7));
    assert_eq!(iter.peek_n(7), Some(&7));

    // The first position should still work
    assert_eq!(iter.peek_n(3), Some(&3));
}
