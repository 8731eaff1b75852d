use lox_front::marcher::Marcher;

#[test]
fn advance_walks_the_values_in_order() {
    let mut m: Marcher<i32> = Marcher::new(vec![1, 2, 3, 4, 5]);
    assert_eq!(m.advance(1), Some(&1));
    assert_eq!(m.advance(1), Some(&2));
    assert_eq!(m.advance(2), Some(&4));
    assert_eq!(m.advance(1), Some(&5));
    assert_eq!(m.advance(1), None);
}

#[test]
fn advance_by_zero_stays_put() {
    let mut m: Marcher<i32> = Marcher::new(vec![7, 8]);
    assert_eq!(m.advance(0), None);
    assert_eq!(m.advance(1), Some(&7));
    assert_eq!(m.advance(0), Some(&7));
}

#[test]
fn advance_never_wraps_back_into_range() {
    let mut m: Marcher<i32> = Marcher::new(vec![1, 2, 3]);
    assert_eq!(m.advance(usize::MAX), None);
    assert_eq!(m.advance(1), None);
    assert_eq!(m.advance(0), None);
}

#[test]
fn peek_looks_ahead_and_behind_without_moving() {
    let mut m: Marcher<char> = Marcher::new(vec!['a', 'b', 'c']);
    assert_eq!(m.peek(1), Some(&'a'));
    assert_eq!(m.peek(0), None);
    m.advance(2);
    assert_eq!(m.peek(0), Some(&'b'));
    assert_eq!(m.peek(1), Some(&'c'));
    assert_eq!(m.peek(-1), Some(&'a'));
    assert_eq!(m.peek(-2), None);
    assert_eq!(m.peek(2), None);
}

#[test]
fn peek_range_returns_a_view_or_nothing() {
    let m: Marcher<i32> = Marcher::new(vec![1, 2, 3, 4]);
    assert_eq!(m.peek_range(1..3), Some(&[2, 3][..]));
    assert_eq!(m.peek_range(0..0), Some(&[][..]));
    assert_eq!(m.peek_range(2..5), None);
}

#[test]
fn advance_if_consumes_only_on_a_match() {
    let mut m: Marcher<i32> = Marcher::new(vec![10, 20]);
    assert_eq!(m.advance_if(|v: &i32| *v == 99), None);
    assert_eq!(m.advance_if(|v: &i32| *v == 10), Some(&10));
    assert_eq!(m.advance_if(|v: &i32| *v == 20), Some(&20));
    assert_eq!(m.advance_if(|v: &i32| *v == 30), None);
}

#[test]
fn advance_until_returns_the_consumed_span() {
    let mut m: Marcher<i32> = Marcher::new(vec![2, 4, 6, 7, 8]);
    let span = m.advance_until(|v: &i32| *v % 2 != 0).to_vec();
    assert_eq!(span, vec![2, 4, 6]);
    assert_eq!(m.peek(1), Some(&7));
}

#[test]
fn default_cursor_is_empty() {
    let mut m: Marcher<i32> = Marcher::default();
    assert!(m.completed());
    assert_eq!(m.advance(1), None);
    assert_eq!(m.peek(1), None);
}

#[test]
fn completed_is_true_exactly_on_the_last_value() {
    let mut m: Marcher<i32> = Marcher::new(vec![1, 2]);
    assert!(!m.completed());
    m.advance(1);
    assert!(!m.completed());
    m.advance(1);
    assert!(m.completed());
    let empty: Marcher<i32> = Marcher::new(Vec::new());
    assert!(empty.completed());
}
