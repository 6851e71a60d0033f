use conc::mapped_list::MappedList;

#[test]
fn empty_store_gives_nothing() {
    let mut m: MappedList<u64> = MappedList::new();
    assert_eq!(m.pop_front(1), None);
    assert_eq!(m.pop_front(0), None);
}

#[test]
fn values_come_out_in_the_order_they_went_in() {
    let mut m: MappedList<u64> = MappedList::new();
    for v in 0..10 {
        m.push_back(3, v);
    }
    for v in 0..10 {
        assert_eq!(m.pop_front(3), Some(v));
    }
    assert_eq!(m.pop_front(3), None);
}

#[test]
fn keys_do_not_disturb_each_other() {
    let mut m: MappedList<&'static str> = MappedList::new();
    m.push_back(1, "a1");
    m.push_back(2, "b1");
    m.push_back(1, "a2");
    m.push_back(2, "b2");
    assert_eq!(m.pop_front(2), Some("b1"));
    assert_eq!(m.pop_front(1), Some("a1"));
    m.push_back(1, "a3");
    assert_eq!(m.pop_front(1), Some("a2"));
    assert_eq!(m.pop_front(1), Some("a3"));
    assert_eq!(m.pop_front(1), None);
    assert_eq!(m.pop_front(2), Some("b2"));
    assert_eq!(m.pop_front(2), None);
}

#[test]
fn a_key_can_be_used_again_after_it_ran_empty() {
    let mut m: MappedList<u8> = MappedList::new();
    m.push_back(u64::MAX, 1);
    assert_eq!(m.pop_front(u64::MAX), Some(1));
    assert_eq!(m.pop_front(u64::MAX), None);
    m.push_back(u64::MAX, 2);
    assert_eq!(m.pop_front(u64::MAX), Some(2));
}

#[test]
fn clear_drops_every_value() {
    let mut m: MappedList<u64> = MappedList::new();
    m.push_back(1, 10);
    m.push_back(2, 20);
    m.clear();
    assert_eq!(m.pop_front(1), None);
    assert_eq!(m.pop_front(2), None);
    m.push_back(1, 11);
    assert_eq!(m.pop_front(1), Some(11));
}
