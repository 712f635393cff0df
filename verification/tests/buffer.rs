//! Tests for the annotated buffer.

use roff::monoid::FreeMonoid;

#[test]
fn typical_usage() {
    let mut m = FreeMonoid::<char>::default();
    m.push('a', "string ");
    m.push('b', "more string");

    let mut r = String::new();
    for i in 0..m.entry_count() {
        let (a, slice) = m.entry(i);
        r += &format!("{}: {:?}; ", a, slice);
    }
    assert_eq!("a: \"string \"; b: \"more string\"; ", r);
}

#[test]
fn buffer_starts_empty() {
    let m = FreeMonoid::<u32>::default();
    assert!(m.is_empty());
    assert_eq!(m.len(), 0);
    assert_eq!(m.entry_count(), 0);
}

#[test]
fn buffer_len_counts_bytes() {
    let mut m = FreeMonoid::<u32>::default();
    m.push(0, "hello");
    m.push(1, " world");
    assert_eq!(m.len(), 11);
    assert!(!m.is_empty());
    m.clear();
    assert!(m.is_empty());
    assert_eq!(m.len(), 0);
}

#[test]
fn buffer_zero_length_entry_is_not_empty() {
    let mut m = FreeMonoid::<u32>::default();
    m.push(7, "");
    assert!(!m.is_empty());
    assert_eq!(m.len(), 0);
    assert_eq!(m.entry_count(), 1);
}

fn contents<T: Copy + std::fmt::Debug + PartialEq>(m: &FreeMonoid<T>) -> Vec<(T, String)> {
    let mut r = Vec::new();
    for i in 0..m.entry_count() {
        let (t, s) = m.entry(i);
        r.push((*t, s.to_string()));
    }
    r
}

#[test]
fn concat_is_associative() {
    let mut a = FreeMonoid::<char>::default();
    a.push('a', "one ");
    let mut b = FreeMonoid::<char>::default();
    b.push('b', "two ");
    let mut c = FreeMonoid::<char>::default();
    c.push('c', "three");

    let left = a.clone().concat(&b).concat(&c);
    let right = a.clone().concat(&b.clone().concat(&c));
    assert_eq!(contents(&left), contents(&right));
    assert_eq!(left.len(), right.len());
}

#[test]
fn concat_empty_is_identity() {
    let mut a = FreeMonoid::<char>::default();
    a.push('x', "payload");
    let e = FreeMonoid::<char>::default();

    let left = a.clone().concat(&e);
    let right = e.clone().concat(&a);
    assert_eq!(contents(&left), contents(&a));
    assert_eq!(contents(&right), contents(&a));
}

#[test]
fn concat_shifts_ranges() {
    let mut a = FreeMonoid::<char>::default();
    a.push('a', "left");
    let mut b = FreeMonoid::<char>::default();
    b.push('b', "right");
    a.append(&b);
    assert_eq!(
        contents(&a),
        vec![('a', "left".to_string()), ('b', "right".to_string())]
    );
    assert_eq!(a.len(), 9);
}

#[test]
fn iteration_concatenates_to_store() {
    let mut m = FreeMonoid::<u8>::default();
    m.push(1, "ab");
    m.push(2, "");
    m.push(3, "cde");
    let mut joined = String::new();
    for i in 0..m.entry_count() {
        joined += m.entry(i).1;
    }
    assert_eq!(joined, "abcde");
    assert_eq!(m.len(), joined.len());
}
