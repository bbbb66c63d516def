use technobabble::decay::Decay;

#[test]
fn decay_counts_down_and_then_expires() {
    let mut d = Decay::new(2);
    assert!(!d.tick());
    assert!(!d.tick());
    assert!(d.tick());
    assert!(d.tick());
}

#[test]
fn decay_of_nothing_expires_at_once() {
    let mut d = Decay::new(0);
    assert!(d.tick());
    let mut d = Decay::default();
    assert!(d.tick());
}

#[test]
fn decay_lasts_as_long_as_it_says() {
    let mut d = Decay::new(60);
    let mut steps: u32 = 0;
    while !d.tick() {
        steps += 1;
    }
    assert_eq!(steps, 60);
}
