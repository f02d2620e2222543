use amdgpu_top_nvitop::clock::{chrono_like, civil};

#[test]
fn epoch_is_thursday_january_first() {
    assert_eq!(civil(0), (4, 1, 1, 0, 0, 0));
}

#[test]
fn first_of_march_1970() {
    assert_eq!(civil(59 * 86400), (0, 3, 1, 0, 0, 0));
}

#[test]
fn leap_day_2000() {
    assert_eq!(civil(951_782_400), (2, 2, 29, 0, 0, 0));
    assert_eq!(civil(951_782_400 + 86_400), (3, 3, 1, 0, 0, 0));
}

#[test]
fn a_known_instant() {
    assert_eq!(civil(1_700_000_000), (2, 11, 14, 22, 13, 20));
    assert_eq!(chrono_like(1_700_000_000), "11 14 22:13:20");
}

#[test]
fn days_step_at_midnight() {
    assert_eq!(civil(86_399), (4, 1, 1, 23, 59, 59));
    assert_eq!(civil(86_400), (5, 1, 2, 0, 0, 0));
}

#[test]
fn year_end_rolls_over() {
    assert_eq!(chrono_like(1_704_067_199), "12 31 23:59:59");
    assert_eq!(chrono_like(1_704_067_200), "01 01 00:00:00");
}

#[test]
fn century_non_leap_year() {
    // 2100-02-28 23:59:59 and the next second, 2100-03-01
    assert_eq!(chrono_like(4_107_542_399), "02 28 23:59:59");
    assert_eq!(chrono_like(4_107_542_400), "03 01 00:00:00");
}

#[test]
fn weekday_cycles_every_seven_days() {
    for d in 0u64..20 {
        assert_eq!(civil(d * 86_400).0, (d + 4) % 7);
    }
}
