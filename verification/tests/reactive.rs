use qtx::reactive::{Data, Subscriber};

#[test]
fn subscribe_hands_out_keys_and_reuses_removed_one() {
    let mut d = Data::new(5u32);
    assert_eq!(d.subscribe(Subscriber::Function), 0);
    assert_eq!(d.subscribe(Subscriber::Object(0x1000)), 1);
    assert_eq!(d.subscribe(Subscriber::Function), 2);
    assert!(matches!(d.unsubscribe(1), Subscriber::Object(0x1000)));
    assert_eq!(d.subscribe(Subscriber::Function), 1);
    assert_eq!(d.subscribe(Subscriber::Function), 3);
    assert_eq!(*d.value(), 5);
}

#[test]
fn source_object_is_not_told() {
    let mut d = Data::new(0u32);
    d.subscribe(Subscriber::Object(0x10));
    d.subscribe(Subscriber::Function);
    d.subscribe(Subscriber::Object(0x20));
    assert_eq!(d.recipients(0x10), vec![1, 2]);
    assert_eq!(d.recipients(0), vec![0, 1, 2]);
}

#[test]
fn set_value_drops_who_asked() {
    let mut d = Data::new(String::from("a"));
    for _ in 0..4 {
        d.subscribe(Subscriber::Function);
    }
    let told = d.recipients(0);
    d.set_value(String::from("b"), &told, &vec![true, false, true, false]);
    assert_eq!(d.value(), "b");
    assert_eq!(d.recipients(0), vec![0, 2]);
    // The key dropped last is used first.
    assert_eq!(d.subscribe(Subscriber::Function), 3);
    assert_eq!(d.subscribe(Subscriber::Function), 1);
}

#[test]
fn describe_names_the_kind() {
    assert_eq!(Subscriber::Object(1).describe(), "Object");
    assert_eq!(Subscriber::Function.describe(), "Function");
}

#[test]
fn is_subscribed_follows_subscriptions() {
    let mut d = Data::new(());
    assert!(!d.is_subscribed(0));
    let k = d.subscribe(Subscriber::Function);
    assert!(d.is_subscribed(k));
    d.unsubscribe(k);
    assert!(!d.is_subscribed(k));
}

#[test]
fn fresh_keys_count_up_and_freed_key_comes_back() {
    let mut d = Data::new(0i32);
    let a = d.subscribe(Subscriber::Function);
    let b = d.subscribe(Subscriber::Function);
    d.unsubscribe(a);
    assert_eq!((a, b), (0, 1));
    assert_eq!(d.subscribe(Subscriber::Function), a);
    assert_eq!(d.subscribe(Subscriber::Function), 2);
}

#[test]
fn freed_keys_come_back_last_freed_first() {
    let mut d = Data::new(0u8);
    for _ in 0..4 {
        d.subscribe(Subscriber::Function);
    }
    d.unsubscribe(0);
    d.unsubscribe(2);
    assert_eq!(d.subscribe(Subscriber::Function), 2);
    assert_eq!(d.subscribe(Subscriber::Function), 0);
    assert_eq!(d.subscribe(Subscriber::Function), 4);
}
