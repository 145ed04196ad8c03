use msg_bus::list::List;

fn collect(l: &List<u32>) -> Vec<u32> {
    let mut it = l.iter();
    let mut out = Vec::new();
    while let Some(v) = it.next() {
        out.push(*v);
    }
    out
}

#[test]
fn list_starts_empty() {
    let l: List<u32> = List::new();
    assert!(l.is_empty());
    assert!(l.iter().next().is_none());
    let d: List<u32> = List::default();
    assert!(d.is_empty());
}

#[test]
fn list_append_keeps_order() {
    let mut l = List::new();
    l.append(1);
    l.append(2);
    l.append(3);
    assert!(!l.is_empty());
    assert_eq!(collect(&l), vec![1, 2, 3]);
}

#[test]
fn list_append_list_splices_at_tail() {
    let mut a = List::new();
    a.append(1);
    let mut b = List::new();
    b.append(2);
    b.append(3);
    a.append_list(b);
    a.append(4);
    assert_eq!(collect(&a), vec![1, 2, 3, 4]);
}

#[test]
fn list_iter_is_restartable() {
    let mut l = List::new();
    l.append(5);
    l.append(6);
    assert_eq!(collect(&l), vec![5, 6]);
    assert_eq!(collect(&l), vec![5, 6]);
}
