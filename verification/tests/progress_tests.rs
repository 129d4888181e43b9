use obj_translator::error::Error;
use obj_translator::progress::Fraction;

#[test]
fn a_share_of_the_source() {
    assert_eq!(Fraction::of(0, 10), Fraction { numer: 0, denom: 10 });
    assert_eq!(Fraction::of(3, 10), Fraction { numer: 3, denom: 10 });
    assert_eq!(Fraction::of(10, 10), Fraction { numer: 10, denom: 10 });
}

#[test]
fn a_share_is_cut_off_at_the_whole() {
    assert_eq!(Fraction::of(11, 10), Fraction { numer: 10, denom: 10 });
    assert_eq!(Fraction::of(u64::MAX, 10), Fraction { numer: 10, denom: 10 });
    assert_eq!(Fraction::of(u64::MAX, u64::MAX), Fraction { numer: u64::MAX, denom: u64::MAX });
}

#[test]
fn a_share_of_an_empty_source() {
    assert_eq!(Fraction::of(0, 0), Fraction { numer: 0, denom: 1 });
    assert_eq!(Fraction::of(1, 0), Fraction { numer: 1, denom: 1 });
    assert_eq!(Fraction::of(500, 0), Fraction { numer: 1, denom: 1 });
}

#[test]
fn the_whole_of_a_source() {
    assert_eq!(Fraction::whole_of(10), Fraction { numer: 10, denom: 10 });
    assert_eq!(Fraction::whole_of(0), Fraction { numer: 1, denom: 1 });
    assert!(Fraction::whole_of(7).is_complete());
    assert!(!Fraction::of(6, 7).is_complete());
}

#[test]
fn the_whole_is_one() {
    for total in [0u64, 1, 3, 1 << 40, u64::MAX] {
        let f = Fraction::whole_of(total);
        assert_eq!(f.numer as f64 / f.denom as f64, 1.0);
    }
}

#[test]
fn failures_have_words() {
    assert_eq!(Error::MalformedMetadata.message(), "the origin record is malformed");
    assert_eq!(Error::PathUnreadable.message(), "the path cannot be read");
    assert_eq!(Error::MalformedVertexLine.message(), "a vertex line is malformed");
    assert_eq!(Error::IoFailure.message(), "reading or writing failed");
}
