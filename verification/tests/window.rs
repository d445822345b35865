use yql_core::window::{Period, Window};

#[test]
fn fixed_windows_hold_each_time_once() {
    let window = Window::Fixed { length: 1000 };
    let starts: Vec<i64> = [500, 999, 1000, 1500, 2500]
        .iter()
        .map(|t| {
            let spans = window.assign(*t);
            assert_eq!(spans.len(), 1);
            assert_eq!(spans[0].1, spans[0].0 + 1000);
            spans[0].0
        })
        .collect();
    assert_eq!(starts, vec![0, 0, 1000, 1000, 2000]);
}

#[test]
fn fixed_windows_before_the_epoch_round_down() {
    let window = Window::Fixed { length: 1000 };
    assert_eq!(window.assign(-1), vec![(-1000, 0)]);
    assert_eq!(window.assign(-1000), vec![(-1000, 0)]);
    assert_eq!(window.assign(-1001), vec![(-2000, -1000)]);
    assert_eq!(window.assign(0), vec![(0, 1000)]);
}

#[test]
fn sliding_windows_hold_a_time_length_over_interval_times() {
    let window = Window::Sliding {
        length: 3000,
        interval: 1000,
    };
    assert_eq!(
        window.assign(4500),
        vec![(2000, 5000), (3000, 6000), (4000, 7000)]
    );
    assert_eq!(
        window.assign(4000),
        vec![(2000, 5000), (3000, 6000), (4000, 7000)]
    );
    assert_eq!(
        window.assign(-1),
        vec![(-3000, 0), (-2000, 1000), (-1000, 2000)]
    );
    let single = Window::Sliding {
        length: 1000,
        interval: 1000,
    };
    assert_eq!(single.assign(1500), vec![(1000, 2000)]);
}

#[test]
fn calendar_windows_of_a_day_in_march() {
    let t = 1615984200000; // 2021-03-17T12:30:00Z, a Wednesday
    let day = Window::Period {
        period: Period::Day,
    };
    let week = Window::Period {
        period: Period::Week,
    };
    let month = Window::Period {
        period: Period::Month,
    };
    let year = Window::Period {
        period: Period::Year,
    };
    assert_eq!(day.assign(t), vec![(1615939200000, 1616025600000)]);
    assert_eq!(week.assign(t), vec![(1615766400000, 1616371200000)]);
    assert_eq!(month.assign(t), vec![(1614556800000, 1617235200000)]);
    assert_eq!(year.assign(t), vec![(1609459200000, 1640995200000)]);
}

#[test]
fn calendar_windows_know_leap_years() {
    let month = Window::Period {
        period: Period::Month,
    };
    // 2020-02-29T23:59:59Z
    assert_eq!(
        month.assign(1583020799000),
        vec![(1580515200000, 1583020800000)]
    );
    // 1900 is no leap year: February ends on the 28th.
    assert_eq!(
        month.assign(-2203934400000),
        vec![(-2206310400000, -2203891200000)]
    );
    // 2000 is one.
    assert_eq!(
        month.assign(951825600000),
        vec![(949363200000, 951868800000)]
    );
    // 2400-12-31T23:59:59Z
    assert_eq!(
        month.assign(13601087999000),
        vec![(13598409600000, 13601088000000)]
    );
    let year = Window::Period {
        period: Period::Year,
    };
    assert_eq!(
        year.assign(13601087999000),
        vec![(13569465600000, 13601088000000)]
    );
}

#[test]
fn calendar_windows_before_the_epoch() {
    let t = -3600000; // 1969-12-31T23:00:00Z, a Wednesday
    let day = Window::Period {
        period: Period::Day,
    };
    let week = Window::Period {
        period: Period::Week,
    };
    let month = Window::Period {
        period: Period::Month,
    };
    let year = Window::Period {
        period: Period::Year,
    };
    assert_eq!(day.assign(t), vec![(-86400000, 0)]);
    assert_eq!(week.assign(t), vec![(-259200000, 345600000)]);
    assert_eq!(month.assign(t), vec![(-2678400000, 0)]);
    assert_eq!(year.assign(t), vec![(-31536000000, 0)]);
    assert_eq!(year.assign(0), vec![(0, 31536000000)]);
}

#[test]
fn windows_whose_bounds_are_no_times_hold_nothing() {
    let fixed = Window::Fixed { length: 1000 };
    assert_eq!(fixed.assign(i64::MAX), Vec::<(i64, i64)>::new());
    assert_eq!(fixed.assign(i64::MIN), Vec::<(i64, i64)>::new());
    let year = Window::Period {
        period: Period::Year,
    };
    assert_eq!(year.assign(i64::MAX), Vec::<(i64, i64)>::new());
    assert_eq!(year.assign(i64::MIN), Vec::<(i64, i64)>::new());
    let sliding = Window::Sliding {
        length: 2000,
        interval: 1000,
    };
    assert_eq!(sliding.assign(i64::MAX - 10), Vec::<(i64, i64)>::new());
}

#[test]
fn window_validity() {
    assert!(Window::Fixed { length: 1 }.is_valid());
    assert!(!Window::Fixed { length: 0 }.is_valid());
    assert!(!Window::Fixed { length: -5 }.is_valid());
    assert!(Window::Sliding {
        length: 6,
        interval: 3
    }
    .is_valid());
    assert!(!Window::Sliding {
        length: 7,
        interval: 3
    }
    .is_valid());
    assert!(!Window::Sliding {
        length: 6,
        interval: 0
    }
    .is_valid());
    assert!(Window::Period {
        period: Period::Week
    }
    .is_valid());
}
