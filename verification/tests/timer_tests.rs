use muote::timer::{
    parse_calendar_interval, parse_quote_timer_interval, parse_systemd_interval,
    rewrite_timer_contents, QuoteIntervalUnit,
};

#[test]
fn unit_ids_round_trip() {
    for unit in [QuoteIntervalUnit::Minutes, QuoteIntervalUnit::Hours, QuoteIntervalUnit::Days] {
        assert_eq!(QuoteIntervalUnit::from_id(unit.id()), unit);
    }
    assert_eq!(QuoteIntervalUnit::Minutes.id(), "minutes");
    assert_eq!(QuoteIntervalUnit::Hours.id(), "hours");
    assert_eq!(QuoteIntervalUnit::Days.id(), "days");
}

#[test]
fn unknown_unit_id_means_minutes() {
    assert_eq!(QuoteIntervalUnit::from_id("weeks"), QuoteIntervalUnit::Minutes);
    assert_eq!(QuoteIntervalUnit::from_id(""), QuoteIntervalUnit::Minutes);
    assert_eq!(QuoteIntervalUnit::from_id("Hours"), QuoteIntervalUnit::Minutes);
}

#[test]
fn systemd_suffixes() {
    assert_eq!(QuoteIntervalUnit::Minutes.systemd_suffix(), "min");
    assert_eq!(QuoteIntervalUnit::Hours.systemd_suffix(), "h");
    assert_eq!(QuoteIntervalUnit::Days.systemd_suffix(), "d");
}

#[test]
fn systemd_intervals() {
    assert_eq!(parse_systemd_interval("30min"), Some((30, QuoteIntervalUnit::Minutes)));
    assert_eq!(parse_systemd_interval("2 days"), Some((2, QuoteIntervalUnit::Days)));
    assert_eq!(parse_systemd_interval(" 15 minute "), Some((15, QuoteIntervalUnit::Minutes)));
    assert_eq!(parse_systemd_interval("3hr"), Some((3, QuoteIntervalUnit::Hours)));
    assert_eq!(parse_systemd_interval("1m"), Some((1, QuoteIntervalUnit::Minutes)));
    assert_eq!(parse_systemd_interval("0h"), Some((1, QuoteIntervalUnit::Hours)));
    assert_eq!(parse_systemd_interval("7d"), Some((7, QuoteIntervalUnit::Days)));
}

#[test]
fn systemd_seconds_round_up_to_minutes() {
    assert_eq!(parse_systemd_interval("90s"), Some((2, QuoteIntervalUnit::Minutes)));
    assert_eq!(parse_systemd_interval("45"), Some((1, QuoteIntervalUnit::Minutes)));
    assert_eq!(parse_systemd_interval("120 seconds"), Some((2, QuoteIntervalUnit::Minutes)));
    assert_eq!(parse_systemd_interval("60sec"), Some((1, QuoteIntervalUnit::Minutes)));
}

#[test]
fn systemd_intervals_rejected() {
    assert_eq!(parse_systemd_interval(""), None);
    assert_eq!(parse_systemd_interval("min"), None);
    assert_eq!(parse_systemd_interval("5x"), None);
    assert_eq!(parse_systemd_interval("5 min 3s"), None);
    assert_eq!(parse_systemd_interval("99999999999min"), None);
    assert_eq!(parse_systemd_interval("4294967295min"), Some((4294967295, QuoteIntervalUnit::Minutes)));
    assert_eq!(parse_systemd_interval("4294967296min"), None);
}

#[test]
fn calendar_intervals() {
    assert_eq!(parse_calendar_interval("minutely"), Some((1, QuoteIntervalUnit::Minutes)));
    assert_eq!(parse_calendar_interval("hourly"), Some((1, QuoteIntervalUnit::Hours)));
    assert_eq!(parse_calendar_interval("daily"), Some((1, QuoteIntervalUnit::Days)));
    assert_eq!(parse_calendar_interval("weekly"), None);
    assert_eq!(parse_calendar_interval(" daily"), None);
}

#[test]
fn timer_interval_from_unit_file() {
    let unit = "[Unit]\nDescription=Fetch\n\n[Timer]\nOnBootSec=1min\nOnUnitActiveSec=45min\nPersistent=true\n\n[Install]\nWantedBy=timers.target\n";
    assert_eq!(parse_quote_timer_interval(unit), (45, QuoteIntervalUnit::Minutes));
}

#[test]
fn timer_interval_defaults_to_a_day() {
    assert_eq!(parse_quote_timer_interval(""), (1, QuoteIntervalUnit::Days));
    assert_eq!(parse_quote_timer_interval("[Timer]\nPersistent=true\n"), (1, QuoteIntervalUnit::Days));
}

#[test]
fn timer_interval_ignores_other_sections_and_comments() {
    let unit = "[Unit]\nOnUnitActiveSec=5min\n[Timer]\n# OnUnitActiveSec=6min\n; OnUnitActiveSec=7min\nOnCalendar=hourly\n";
    assert_eq!(parse_quote_timer_interval(unit), (1, QuoteIntervalUnit::Hours));
}

#[test]
fn timer_interval_calendar_last_wins() {
    let unit = "[Timer]\nOnCalendar=hourly\nOnCalendar=minutely\n";
    assert_eq!(parse_quote_timer_interval(unit), (1, QuoteIntervalUnit::Minutes));
    let unknown_last = "[Timer]\nOnCalendar=hourly\nOnCalendar=Mon *-*-* 00:00:00\n";
    assert_eq!(parse_quote_timer_interval(unknown_last), (1, QuoteIntervalUnit::Days));
}

#[test]
fn timer_interval_first_understood_active_setting_wins() {
    let unit = "[Timer]\nOnUnitActiveSec=soon\nOnUnitActiveSec = 2h\nOnUnitActiveSec=3h\nOnUnitActiveSec=4d\n";
    assert_eq!(parse_quote_timer_interval(unit), (3, QuoteIntervalUnit::Hours));
    let windows = "[Timer]\r\nOnUnitActiveSec=12min\r\n";
    assert_eq!(parse_quote_timer_interval(windows), (12, QuoteIntervalUnit::Minutes));
}

#[test]
fn rewrite_puts_interval_at_end_of_timer_section() {
    let unit = "[Unit]\nDescription=Fetch\n\n[Timer]\nOnCalendar=daily\nPersistent=true\n\n[Install]\nWantedBy=timers.target\n";
    assert_eq!(
        rewrite_timer_contents(unit, 30, QuoteIntervalUnit::Minutes),
        "[Unit]\nDescription=Fetch\n\n[Timer]\nPersistent=true\n\nOnUnitActiveSec=30min\n[Install]\nWantedBy=timers.target\n"
    );
}

#[test]
fn rewrite_adds_timer_section_when_missing() {
    assert_eq!(
        rewrite_timer_contents("[Unit]\nDescription=Fetch\n", 0, QuoteIntervalUnit::Hours),
        "[Unit]\nDescription=Fetch\n\n[Timer]\nOnUnitActiveSec=1h\n"
    );
    assert_eq!(
        rewrite_timer_contents("[Unit]\nDescription=x\n\n", 4, QuoteIntervalUnit::Days),
        "[Unit]\nDescription=x\n\n[Timer]\nOnUnitActiveSec=4d\n"
    );
    assert_eq!(rewrite_timer_contents("", 2, QuoteIntervalUnit::Days), "\n[Timer]\nOnUnitActiveSec=2d\n");
}

#[test]
fn rewrite_replaces_existing_interval_in_last_section() {
    assert_eq!(
        rewrite_timer_contents("[Timer]\nOnUnitActiveSec=5min\n", 3, QuoteIntervalUnit::Hours),
        "[Timer]\nOnUnitActiveSec=3h\n"
    );
}

#[test]
fn rewritten_unit_reads_back_the_interval() {
    let units = [
        "",
        "[Unit]\nDescription=Fetch\n",
        "[Timer]\nOnCalendar=daily\n[Install]\nWantedBy=timers.target\n",
        "[Timer]\r\nOnUnitActiveSec=9h\r\r\n[Timer]\nOnCalendar=hourly\n",
        "[Install]\n[Timer]\n# note\n",
    ];
    for unit in units {
        for (value, kind) in [
            (0, QuoteIntervalUnit::Minutes),
            (1, QuoteIntervalUnit::Hours),
            (250, QuoteIntervalUnit::Days),
            (u32::MAX, QuoteIntervalUnit::Minutes),
        ] {
            let text = rewrite_timer_contents(unit, value, kind);
            assert_eq!(parse_quote_timer_interval(&text), (value.max(1), kind));
        }
    }
}

#[test]
fn timer_candidates_end_with_system_dirs() {
    let c = muote::timer::fetch_timer_candidates();
    let n = c.len();
    assert!(n == 3 || n == 4);
    assert_eq!(c[n - 3], b"/etc/systemd/user/marxist-quote-fetch.timer".to_vec());
    assert_eq!(c[n - 2], b"/usr/local/lib/systemd/user/marxist-quote-fetch.timer".to_vec());
    assert_eq!(c[n - 1], b"/usr/lib/systemd/user/marxist-quote-fetch.timer".to_vec());
    if n == 4 {
        assert!(c[0].ends_with(b"/systemd/user/marxist-quote-fetch.timer"));
    }
}

#[test]
fn timer_path_is_first_existing() {
    let c: Vec<Vec<u8>> = vec![b"/a".to_vec(), b"/b".to_vec(), b"/c".to_vec()];
    assert_eq!(muote::timer::pick_fetch_timer_path(&c, &vec![false, true, true]), b"/b".to_vec());
    assert_eq!(muote::timer::pick_fetch_timer_path(&c, &vec![true, false, false]), b"/a".to_vec());
    assert_eq!(
        muote::timer::pick_fetch_timer_path(&c, &vec![false, false, false]),
        b"/usr/lib/systemd/user/marxist-quote-fetch.timer".to_vec()
    );
}

#[test]
fn interval_text_reads_back() {
    for unit in [QuoteIntervalUnit::Minutes, QuoteIntervalUnit::Hours, QuoteIntervalUnit::Days] {
        for n in [1u32, 7, 30, u32::MAX] {
            let text = format!("{}{}", n, unit.systemd_suffix());
            assert_eq!(parse_systemd_interval(&text), Some((n, unit)));
        }
    }
    assert_eq!(parse_systemd_interval("0min"), Some((1, QuoteIntervalUnit::Minutes)));
    assert_eq!(parse_systemd_interval("1s"), Some((1, QuoteIntervalUnit::Minutes)));
    assert_eq!(parse_systemd_interval("0"), Some((1, QuoteIntervalUnit::Minutes)));
}

#[test]
fn applying_an_interval_twice_is_applying_it_once() {
    let units = [
        "[Unit]\nDescription=x\n\n[Timer]\nOnCalendar=daily\nPersistent=true\n\n[Install]\nWantedBy=timers.target\n",
        "[Unit]\nDescription=x\n",
        "[Timer]\nOnUnitActiveSec=5min",
        "",
    ];
    for contents in units {
        let once = rewrite_timer_contents(contents, 3, QuoteIntervalUnit::Hours);
        let twice = rewrite_timer_contents(&once, 3, QuoteIntervalUnit::Hours);
        assert_eq!(once, twice);
        assert_eq!(parse_quote_timer_interval(&once), (3, QuoteIntervalUnit::Hours));
    }
}
