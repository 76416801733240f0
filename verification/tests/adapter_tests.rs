use casefiles::skip_last::{SkipLast, truncate_last};

#[test]
fn truncate_empty() {
    let v: Vec<u32> = vec![];
    let r = truncate_last(v);
    assert_eq!(r, Vec::<u32>::new());
}

#[test]
fn truncate_single() {
    let r = truncate_last(vec![7u32]);
    assert_eq!(r, Vec::<u32>::new());
}

#[test]
fn truncate_many() {
    let r = truncate_last(vec![1u32, 2, 3, 4, 5]);
    assert_eq!(r, vec![1u32, 2, 3, 4]);
}

#[test]
fn truncate_two() {
    let r = truncate_last(vec!["a".to_string(), "b".to_string()]);
    assert_eq!(r, vec!["a".to_string()]);
}

#[test]
fn adapter_pulls_in_order() {
    let mut sl = SkipLast::new(vec![10u32, 20, 30]);
    assert_eq!(sl.next(), Some(10));
    assert_eq!(sl.next(), Some(20));
    assert_eq!(sl.next(), None);
    assert_eq!(sl.next(), None);
}

#[test]
fn adapter_empty_source() {
    let mut sl = SkipLast::new(Vec::<u32>::new());
    assert_eq!(sl.next(), None);
}

#[test]
fn adapter_single_source() {
    let mut sl = SkipLast::new(vec![42u32]);
    assert_eq!(sl.next(), None);
}
