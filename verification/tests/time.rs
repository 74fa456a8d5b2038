use memhold::clock::{beijing_time, get_current_time, LAST_SECOND};

fn has_time_form(text: &str) -> bool {
    let bytes = text.as_bytes();
    bytes.len() == 19
        && bytes.iter().enumerate().all(|(i, b)| match i {
            4 | 7 => *b == b'-',
            10 => *b == b' ',
            13 | 16 => *b == b':',
            _ => b.is_ascii_digit(),
        })
}

#[test]
fn epoch_is_eight_in_the_morning() {
    assert_eq!(beijing_time(0), "1970-01-01 08:00:00");
}

#[test]
fn known_moments() {
    assert_eq!(beijing_time(1_431_648_000), "2015-05-15 08:00:00");
    assert_eq!(beijing_time(1_709_164_799), "2024-02-29 07:59:59");
    assert_eq!(beijing_time(1_709_222_400), "2024-03-01 00:00:00");
    assert_eq!(beijing_time(951_782_400), "2000-02-29 08:00:00");
    assert_eq!(beijing_time(4_107_542_399), "2100-03-01 07:59:59");
    assert_eq!(beijing_time(1_735_660_799), "2024-12-31 23:59:59");
    assert_eq!(beijing_time(1_735_660_800), "2025-01-01 00:00:00");
}

#[test]
fn years_past_four_digits_have_a_sign() {
    assert_eq!(beijing_time(253_402_271_999), "9999-12-31 23:59:59");
    assert_eq!(beijing_time(253_402_272_000), "+10000-01-01 00:00:00");
    assert_eq!(beijing_time(LAST_SECOND), "+262143-01-01 07:59:59");
}

#[test]
fn current_time_has_the_form() {
    let before = chrono::Utc::now().timestamp();
    let text = get_current_time();
    let after = chrono::Utc::now().timestamp();
    assert!(has_time_form(&text));
    assert!(beijing_time(before) <= text && text <= beijing_time(after));
}
