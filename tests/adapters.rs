use worker_pool::adapters::{MyIterator, MySum};

fn collect<T, I>(mut iterator: I) -> Vec<T>
where
    I: MyIterator<Item = T>,
{
    let mut res = Vec::new();
    while let Some(el) = iterator.next() {
        res.push(el);
    }

    res
}

#[test]
fn test_filter() {
    let enumeration = vec![1, 2, 3, 4, 5, 6, 7, 8, 9, 10];
    let filtered: Vec<i32> = collect(enumeration.my_filter(|&item| item % 2 == 0));
    assert_eq!(filtered, vec![2, 4, 6, 8, 10]);
}

#[test]
fn test_map() {
    let enumeration = vec![1, 2, 3, 4, 5, 6, 7, 8, 9, 10];
    let mapped: Vec<String> = collect(enumeration.my_map(|item| format!("Value: {item}")));
    assert_eq!(
        mapped,
        vec![
            "Value: 1",
            "Value: 2",
            "Value: 3",
            "Value: 4",
            "Value: 5",
            "Value: 6",
            "Value: 7",
            "Value: 8",
            "Value: 9",
            "Value: 10"
        ]
    );
}

#[test]
fn test_total() {
    let enumeration = vec![1, 2, 3, 4, 5, 6, 7, 8, 9, 10];
    let total = enumeration.my_sum();
    assert_eq!(total, 55);
}

#[test]
fn test_filtered_mapped_total() {
    let enumeration = vec![1, 2, 3, 4, 5, 6, 7, 8, 9, 10];
    let filtered_mapped_total = enumeration
        .my_filter(|&item| item % 2 == 0)
        .my_map(|item| item * 2)
        .my_sum();
    assert_eq!(filtered_mapped_total, 60);
}

#[test]
fn vec_yields_front_first_then_none() {
    let mut v = vec![7u8, 8, 9];
    assert_eq!(v.next(), Some(7));
    assert_eq!(v.next(), Some(8));
    assert_eq!(v.next(), Some(9));
    assert_eq!(v.next(), None);
    assert_eq!(v.next(), None);
}

#[test]
fn sum_of_empty_is_zero() {
    let empty: Vec<i64> = Vec::new();
    assert_eq!(empty.my_sum(), 0);
}

#[test]
fn sum_with_negative_items() {
    let v: Vec<i64> = vec![-5, 3, -10, 2];
    assert_eq!(v.my_sum(), -10);
}

#[test]
fn sum_reaching_the_largest_value() {
    let v: Vec<i64> = vec![i64::MAX - 1, 1];
    assert_eq!(v.my_sum(), i64::MAX);
}

#[test]
fn filter_that_rejects_everything() {
    let v = vec![1, 3, 5];
    let kept: Vec<i32> = collect(v.my_filter(|&item| item % 2 == 0));
    assert!(kept.is_empty());
}

#[test]
fn filter_on_empty_source() {
    let v: Vec<i32> = Vec::new();
    let kept: Vec<i32> = collect(v.my_filter(|_| true));
    assert!(kept.is_empty());
}

#[test]
fn map_keeps_order_and_length() {
    let v = vec![3, 1, 2];
    let mapped: Vec<i32> = collect(v.my_map(|item| item * 10));
    assert_eq!(mapped, vec![30, 10, 20]);
}

#[test]
fn map_then_filter_chain() {
    let v = vec![1, 2, 3, 4];
    let out: Vec<i32> = collect(v.my_map(|item| item + 1).my_filter(|&item| item > 3));
    assert_eq!(out, vec![4, 5]);
}
