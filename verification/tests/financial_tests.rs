use lion_calculator::financial::{TvmSlots, TvmVar};

#[test]
fn tvm_names() {
    for v in [TvmVar::N, TvmVar::IY, TvmVar::PV, TvmVar::PMT, TvmVar::FV] {
        assert_eq!(TvmVar::from_name(v.name()), Some(v));
    }
    assert_eq!(TvmVar::IY.name(), "I/Y");
    assert_eq!(TvmVar::from_name("IY"), None);
}

#[test]
fn slots_set_and_get() {
    let mut s: TvmSlots<i32> = TvmSlots::new();
    assert_eq!(s.get(TvmVar::PV), None);
    s.set(TvmVar::PV, 100);
    s.set(TvmVar::N, 12);
    assert_eq!(s.get(TvmVar::PV), Some(100));
    assert_eq!(s.get(TvmVar::N), Some(12));
    assert_eq!(s.get(TvmVar::FV), None);
    s.clear();
    assert_eq!(s.get(TvmVar::PV), None);
}

#[test]
fn need_collects_in_order() {
    let mut s: TvmSlots<i32> = TvmSlots::new();
    s.set(TvmVar::N, 1);
    s.set(TvmVar::IY, 2);
    s.set(TvmVar::PV, 3);
    s.set(TvmVar::PMT, 4);
    assert_eq!(s.need("FV", &["N", "I/Y", "PV", "PMT"]), Ok((1, 2, 3, 4)));
    assert_eq!(s.need("N", &["PMT", "PV", "I/Y", "N"]), Ok((4, 3, 2, 1)));
}

#[test]
fn need_reports_first_missing() {
    let mut s: TvmSlots<i32> = TvmSlots::new();
    s.set(TvmVar::N, 1);
    assert_eq!(
        s.need("FV", &["N", "I/Y", "PV", "PMT"]),
        Err("I/Y is not set (needed to solve FV)".to_string())
    );
    assert_eq!(s.need("FV", &["N", "Q", "PV", "PMT"]), Err("Unknown key 'Q'".to_string()));
}
