use onvif_client::timestamp::{civil_from_unix, format_timestamp, timestamp_at, CivilTime};

#[test]
fn epoch_is_first_second_of_1970() {
    let t = civil_from_unix(0);
    assert_eq!(t, CivilTime { year: 1970, month: 1, day: 1, hour: 0, minute: 0, second: 0 });
    assert_eq!(timestamp_at(0), "1970-01-01T00:00:00Z");
}

#[test]
fn timestamp_of_known_moment() {
    assert_eq!(timestamp_at(1704164645), "2024-01-02T03:04:05Z");
    assert_eq!(
        civil_from_unix(1704164645),
        CivilTime { year: 2024, month: 1, day: 2, hour: 3, minute: 4, second: 5 }
    );
}

#[test]
fn timestamp_at_day_boundaries() {
    assert_eq!(timestamp_at(59), "1970-01-01T00:00:59Z");
    assert_eq!(timestamp_at(86399), "1970-01-01T23:59:59Z");
    assert_eq!(timestamp_at(86400), "1970-01-02T00:00:00Z");
}

#[test]
fn timestamp_in_leap_years() {
    assert_eq!(timestamp_at(68169599), "1972-02-28T23:59:59Z");
    assert_eq!(timestamp_at(68169600), "1972-02-29T00:00:00Z");
    assert_eq!(timestamp_at(951782400), "2000-02-29T00:00:00Z");
    assert_eq!(timestamp_at(951868799), "2000-02-29T23:59:59Z");
    assert_eq!(timestamp_at(951868800), "2000-03-01T00:00:00Z");
    assert_eq!(timestamp_at(1709164800), "2024-02-29T00:00:00Z");
}

#[test]
fn timestamp_in_a_century_year_without_leap_day() {
    assert_eq!(timestamp_at(4102444799), "2099-12-31T23:59:59Z");
    assert_eq!(timestamp_at(4107455999), "2100-02-27T23:59:59Z");
    assert_eq!(timestamp_at(4107456000), "2100-02-28T00:00:00Z");
    assert_eq!(timestamp_at(4107456000 + 86400), "2100-03-01T00:00:00Z");
}

#[test]
fn timestamp_of_far_years() {
    assert_eq!(timestamp_at(253402300799), "9999-12-31T23:59:59Z");
    assert_eq!(timestamp_at(253402300800), "10000-01-01T00:00:00Z");
    assert_eq!(timestamp_at(u64::MAX), "584554051223-11-09T07:00:15Z");
}

#[test]
fn format_pads_to_two_digits() {
    let t = CivilTime { year: 2024, month: 12, day: 9, hour: 10, minute: 0, second: 7 };
    assert_eq!(format_timestamp(&t), "2024-12-09T10:00:07Z");
}
