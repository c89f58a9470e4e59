use app_lev_orc::timing::Timespec;

#[test]
fn activation_advances_by_the_period() {
    let start = Timespec { sec: 5, nsec: 100 };
    assert_eq!(start.advance(1_000), Timespec { sec: 5, nsec: 1_000_100 });
    assert_eq!(start.advance(0), start);
}

#[test]
fn activation_carries_over_the_second() {
    let start = Timespec { sec: 5, nsec: 999_500_000 };
    assert_eq!(start.advance(1_000), Timespec { sec: 6, nsec: 500_000 });
    // Exactly on the second.
    let start = Timespec { sec: 5, nsec: 999_000_000 };
    assert_eq!(start.advance(1_000), Timespec { sec: 6, nsec: 0 });
    // A period of more than a second.
    let start = Timespec { sec: 5, nsec: 600_000_000 };
    assert_eq!(start.advance(2_500_000), Timespec { sec: 8, nsec: 100_000_000 });
    assert_eq!(start.advance(u32::MAX), Timespec { sec: 4300, nsec: 567_295_000 });
}

#[test]
fn activation_that_does_not_fit_is_told() {
    let late = Timespec { sec: u64::MAX, nsec: 999_999_999 };
    assert!(!late.fits(1));
    assert!(late.fits(0));
    assert!(Timespec { sec: u64::MAX, nsec: 0 }.fits(999_999));
    assert!(!Timespec { sec: u64::MAX, nsec: 0 }.fits(1_000_000));
    assert!(Timespec { sec: 0, nsec: 0 }.fits(u32::MAX));
}

#[test]
fn microseconds_between_instants() {
    let start = Timespec { sec: 10, nsec: 900_000_000 };
    assert_eq!(start.micros_until(&Timespec { sec: 10, nsec: 900_000_000 }), 0);
    assert_eq!(start.micros_until(&Timespec { sec: 10, nsec: 900_001_999 }), 1);
    assert_eq!(start.micros_until(&Timespec { sec: 11, nsec: 100_000_000 }), 200_000);
    assert_eq!(start.micros_until(&Timespec { sec: 12, nsec: 900_000_500 }), 2_000_000);
}

#[test]
fn instants_are_ordered() {
    let a = Timespec { sec: 1, nsec: 5 };
    assert!(a.not_after(&a));
    assert!(a.not_after(&Timespec { sec: 1, nsec: 6 }));
    assert!(a.not_after(&Timespec { sec: 2, nsec: 0 }));
    assert!(!a.not_after(&Timespec { sec: 1, nsec: 4 }));
    assert!(!a.not_after(&Timespec { sec: 0, nsec: 999_999_999 }));
}

#[test]
fn spans_that_cannot_be_measured_are_told() {
    let start = Timespec { sec: 10, nsec: 5 };
    assert!(start.measurable(&start));
    assert!(start.measurable(&Timespec { sec: 11, nsec: 0 }));
    assert!(!start.measurable(&Timespec { sec: 10, nsec: 4 }));
    assert!(!start.measurable(&Timespec { sec: 9, nsec: 999_999_999 }));
    // More microseconds than fit.
    assert!(!Timespec { sec: 0, nsec: 0 }.measurable(&Timespec { sec: u64::MAX, nsec: 0 }));
    assert!(Timespec { sec: 0, nsec: 0 }.measurable(&Timespec { sec: 18_446_744_073_709, nsec: 551_615_999 }));
    assert!(!Timespec { sec: 0, nsec: 0 }.measurable(&Timespec { sec: 18_446_744_073_709, nsec: 551_616_000 }));
}
