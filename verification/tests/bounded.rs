use exprc::bounded::{Bounded, OutOfBounds};

#[test]
fn bounded_rejects_too_high() {
    let r = Bounded::<0, 15>::try_construct(16);
    assert_eq!(r.unwrap_err(), OutOfBounds::TooHigh);
}

#[test]
fn bounded_rejects_too_low() {
    let r = Bounded::<0, 15>::try_construct(-1);
    assert_eq!(r.unwrap_err(), OutOfBounds::TooLow);
}

#[test]
fn bounded_round_trips() {
    let r = Bounded::<0, 15>::try_construct(15).unwrap();
    assert_eq!(r.to_raw(), 15);
}

#[test]
fn bounded_extended_groups() {
    assert!(Bounded::<8, 10>::try_construct(8).is_ok());
    assert!(Bounded::<8, 10>::try_construct(11).is_err());
    assert!(Bounded::<11, 15>::try_construct(11).is_ok());
    assert_eq!(
        Bounded::<11, 15>::try_construct(10).unwrap_err(),
        OutOfBounds::TooLow
    );
}
