use fldemos::counter::{counter_step, Model};

#[test]
fn counter_stays_in_a_byte() {
    let mut m = Model::default();
    m.dec();
    assert_eq!(m.value, 0);
    m.inc();
    m.inc();
    assert_eq!(m.value, 2);
    let mut top = Model { value: 255 };
    top.inc();
    assert_eq!(top.value, 255);
    top.dec();
    assert_eq!(top.value, 254);
}

#[test]
fn counter_page_steps() {
    assert_eq!(counter_step(0, true), 0);
    assert_eq!(counter_step(0, false), 1);
    assert_eq!(counter_step(255, false), 255);
    assert_eq!(counter_step(7, true), 6);
}

#[test]
fn up_then_down_returns() {
    for v in 0u8..255 {
        assert_eq!(counter_step(counter_step(v, false), true), v);
    }
}
