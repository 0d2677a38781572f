use temprec::temperature::{Temperature, RANGE_MAX, RANGE_MIN, THRESHOLD};

fn value(v: i32) -> Temperature {
    Temperature::MiliCelcius(v)
}

fn error(text: &str) -> Temperature {
    Temperature::Error(text.to_owned())
}

#[test]
fn threshold_is_two_hundred() {
    assert_eq!(THRESHOLD, 200);
    assert_eq!(RANGE_MIN, -55_000);
    assert_eq!(RANGE_MAX, 125_000);
}

#[test]
fn values_within_threshold_are_unchanged() {
    assert!(!value(20_000).has_changed(&value(20_000)));
    assert!(!value(20_200).has_changed(&value(20_000)));
    assert!(!value(19_800).has_changed(&value(20_000)));
    assert!(!value(-100).has_changed(&value(100)));
}

#[test]
fn values_beyond_threshold_are_changed() {
    assert!(value(20_201).has_changed(&value(20_000)));
    assert!(value(19_799).has_changed(&value(20_000)));
    assert!(value(-101).has_changed(&value(100)));
}

#[test]
fn extreme_values_do_not_overflow() {
    assert!(value(i32::MAX).has_changed(&value(i32::MIN)));
    assert!(value(i32::MIN).has_changed(&value(i32::MAX)));
    assert!(!value(i32::MIN).has_changed(&value(i32::MIN)));
}

#[test]
fn first_reading_is_always_a_change() {
    assert!(value(0).has_changed(&Temperature::Invalid));
    assert!(error("boom").has_changed(&Temperature::Invalid));
    assert!(!Temperature::Invalid.has_changed(&Temperature::Invalid));
}

#[test]
fn transitions_into_and_out_of_errors_are_changes() {
    assert!(error("boom").has_changed(&value(20_000)));
    assert!(value(20_000).has_changed(&error("boom")));
    assert!(error("boom").has_changed(&error("bang")));
    assert!(!error("boom").has_changed(&error("boom")));
    assert!(Temperature::Invalid.has_changed(&value(1)));
    assert!(Temperature::Invalid.has_changed(&error("boom")));
}

#[test]
fn same_as_compares_kind_and_content() {
    assert!(value(5).same_as(&value(5)));
    assert!(!value(5).same_as(&value(6)));
    assert!(!value(5).same_as(&error("5")));
    assert!(error("").same_as(&error("")));
    assert_eq!(value(5), value(5));
    assert_ne!(value(5), Temperature::Invalid);
    assert_eq!(error("x").clone(), error("x"));
}

#[test]
fn range_check_is_inclusive() {
    assert!(value(-55_000).is_in_range());
    assert!(value(125_000).is_in_range());
    assert!(!value(-55_001).is_in_range());
    assert!(!value(125_001).is_in_range());
    assert!(!error("x").is_in_range());
    assert!(!Temperature::Invalid.is_in_range());
}
