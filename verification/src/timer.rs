//! The quote refresh interval and the systemd timer unit that holds it.

use vstd::prelude::*;
use crate::config::{join_path, opt_view, path_join, text_bytes, usable_base, user_config_dir};
use crate::text::{
    chars_of, decimal_value, equals_str, is_ascii_digit, parse_u32_digits, parse_u32_spec, slice_vec,
    append_str, append_vec, decimal_text, has_prefix, has_suffix, join_lines, join_with_newlines,
    has_no_newline, is_whitespace, lemma_decimal_text, lemma_join_terminated, lemma_lines_have_no_newline,
    lemma_lines_of_terminated, lemma_trim_noop, lemma_trim_strip_cr, lines_of, strip_cr,
    string_from_chars, u32_text, whitespace_pred, split_lines, starts_with, trim, trim_pred, trim_vec, views,
};

verus! {

/// The unit of the quote refresh interval.
#[derive(Debug, Clone, Copy, PartialEq, Eq, Structural)]
pub enum QuoteIntervalUnit {
    Minutes,
    Hours,
    Days,
}

/// The identifier of a unit, as the settings store it.
pub open spec fn unit_id_text(unit: QuoteIntervalUnit) -> Seq<char> {
    match unit {
        QuoteIntervalUnit::Minutes => "minutes"@,
        QuoteIntervalUnit::Hours => "hours"@,
        QuoteIntervalUnit::Days => "days"@,
    }
}

/// The unit that an identifier names; anything unknown means minutes.
pub open spec fn unit_from_id_text(id: Seq<char>) -> QuoteIntervalUnit {
    if id == "hours"@ {
        QuoteIntervalUnit::Hours
    } else if id == "days"@ {
        QuoteIntervalUnit::Days
    } else {
        QuoteIntervalUnit::Minutes
    }
}

/// The suffix of a unit in a systemd time span.
pub open spec fn unit_suffix_text(unit: QuoteIntervalUnit) -> Seq<char> {
    match unit {
        QuoteIntervalUnit::Minutes => "min"@,
        QuoteIntervalUnit::Hours => "h"@,
        QuoteIntervalUnit::Days => "d"@,
    }
}

impl QuoteIntervalUnit {
    pub fn id(self) -> (r: &'static str)
        ensures
            r@ == unit_id_text(self),
    {
        match self {
            QuoteIntervalUnit::Minutes => "minutes",
            QuoteIntervalUnit::Hours => "hours",
            QuoteIntervalUnit::Days => "days",
        }
    }

    pub fn from_id(id: &str) -> (r: Self)
        ensures
            r == unit_from_id_text(id@),
    {
        let cs = chars_of(id);
        if equals_str(&cs, "hours") {
            QuoteIntervalUnit::Hours
        } else if equals_str(&cs, "days") {
            QuoteIntervalUnit::Days
        } else {
            QuoteIntervalUnit::Minutes
        }
    }

    pub fn systemd_suffix(self) -> (r: &'static str)
        ensures
            r@ == unit_suffix_text(self),
    {
        match self {
            QuoteIntervalUnit::Minutes => "min",
            QuoteIntervalUnit::Hours => "h",
            QuoteIntervalUnit::Days => "d",
        }
    }
}

/// Reading an identifier back gives the unit that wrote it.
pub proof fn lemma_unit_id_round_trip(unit: QuoteIntervalUnit)
    ensures
        unit_from_id_text(unit_id_text(unit)) == unit,
{
    reveal_strlit("minutes");
    reveal_strlit("hours");
    reveal_strlit("days");
    assert("minutes"@.len() != "hours"@.len());
    assert("minutes"@.len() != "days"@.len());
    assert("days"@.len() != "hours"@.len());
}


/// Number of ASCII digits at the start of `s`.
pub open spec fn leading_digit_count(s: Seq<char>) -> nat
    decreases s.len(),
{
    if s.len() > 0 && is_ascii_digit(s[0]) {
        1 + leading_digit_count(s.drop_first())
    } else {
        0
    }
}

pub open spec fn is_minute_word(t: Seq<char>) -> bool {
    t == "min"@ || t == "minute"@ || t == "minutes"@ || t == "m"@
}

pub open spec fn is_hour_word(t: Seq<char>) -> bool {
    t == "h"@ || t == "hr"@ || t == "hour"@ || t == "hours"@
}

pub open spec fn is_day_word(t: Seq<char>) -> bool {
    t == "d"@ || t == "day"@ || t == "days"@
}

pub open spec fn is_second_word(t: Seq<char>) -> bool {
    t.len() == 0 || t == "s"@ || t == "sec"@ || t == "second"@ || t == "seconds"@
}

/// The interval that a systemd time span such as `"30min"` or `"2 days"` stands for:
/// the leading number (at least 1) with its unit; seconds round up to whole minutes.
pub open spec fn systemd_interval_spec(value: Seq<char>) -> Option<(u32, QuoteIntervalUnit)> {
    let v = trim(value);
    let k = leading_digit_count(v) as int;
    match parse_u32_spec(v.take(k)) {
        None => None,
        Some(a) => {
            let amount: u32 = if a < 1 { 1 } else { a };
            let u = trim(v.skip(k));
            if is_minute_word(u) {
                Some((amount, QuoteIntervalUnit::Minutes))
            } else if is_hour_word(u) {
                Some((amount, QuoteIntervalUnit::Hours))
            } else if is_day_word(u) {
                Some((amount, QuoteIntervalUnit::Days))
            } else if is_second_word(u) {
                Some((((amount + 59) / 60) as u32, QuoteIntervalUnit::Minutes))
            } else {
                None
            }
        },
    }
}

/// The interval that a systemd calendar shorthand stands for.
pub open spec fn calendar_interval_spec(value: Seq<char>) -> Option<(u32, QuoteIntervalUnit)> {
    if value == "minutely"@ {
        Some((1, QuoteIntervalUnit::Minutes))
    } else if value == "hourly"@ {
        Some((1, QuoteIntervalUnit::Hours))
    } else if value == "daily"@ {
        Some((1, QuoteIntervalUnit::Days))
    } else {
        None
    }
}

proof fn lemma_leading_digits(s: Seq<char>, i: int)
    requires
        0 <= i <= leading_digit_count(s),
    ensures
        leading_digit_count(s) <= s.len(),
        leading_digit_count(s.skip(i)) == leading_digit_count(s) - i,
        forall|j: int| 0 <= j < leading_digit_count(s) ==> is_ascii_digit(#[trigger] s[j]),
        leading_digit_count(s) < s.len() ==> !is_ascii_digit(s[leading_digit_count(s) as int]),
    decreases s.len(),
{
    if s.len() > 0 && is_ascii_digit(s[0]) {
        let t = s.drop_first();
        if i > 0 {
            lemma_leading_digits(t, i - 1);
            assert(t.skip(i - 1) =~= s.skip(i));
        } else {
            lemma_leading_digits(t, 0);
            assert(s.skip(0) =~= s);
        }
        assert forall|j: int| 0 <= j < leading_digit_count(s) implies is_ascii_digit(#[trigger] s[j]) by {
            if j > 0 {
                assert(s[j] == t[j - 1]);
            }
        }
        if leading_digit_count(s) < s.len() {
            assert(s[leading_digit_count(s) as int] == t[leading_digit_count(t) as int]);
        }
    } else {
        assert(s.skip(0) =~= s);
    }
}

fn digit_count(v: &Vec<char>) -> (k: usize)
    ensures
        k == leading_digit_count(v@),
{
    let n = v.len();
    let mut k: usize = 0;
    proof {
        lemma_leading_digits(v@, 0);
        assert(v@.skip(0) =~= v@);
    }
    while k < n && '0' <= v[k] && v[k] <= '9'
        invariant
            k <= n,
            n == v@.len(),
            k <= leading_digit_count(v@),
            leading_digit_count(v@.skip(k as int)) == leading_digit_count(v@) - k,
        decreases n - k,
    {
        proof {
            let t = v@.skip(k as int);
            assert(t[0] == v@[k as int]);
            assert(t.drop_first() =~= v@.skip(k + 1));
            lemma_leading_digits(v@, k as int);
        }
        k = k + 1;
    }
    proof {
        let t = v@.skip(k as int);
        if k < n {
            assert(t[0] == v@[k as int]);
        }
    }
    k
}

fn is_one_of(t: &Vec<char>, a: &str, b: &str, c: &str, d: &str) -> (r: bool)
    ensures
        r == (t@ == a@ || t@ == b@ || t@ == c@ || t@ == d@),
{
    equals_str(t, a) || equals_str(t, b) || equals_str(t, c) || equals_str(t, d)
}

/// Reads a systemd time span as a quote interval.
pub fn parse_systemd_interval(value: &str) -> (r: Option<(u32, QuoteIntervalUnit)>)
    ensures
        r == systemd_interval_spec(value@),
{
    let cs = chars_of(value);
    systemd_interval_of(&cs)
}

fn systemd_interval_of(value: &Vec<char>) -> (r: Option<(u32, QuoteIntervalUnit)>)
    ensures
        r == systemd_interval_spec(value@),
{
    let v = trim_vec(value, None);
    assert(trim_pred(None) == crate::text::whitespace_pred());
    let k = digit_count(&v);
    proof {
        lemma_leading_digits(v@, 0);
    }
    let digits = slice_vec(&v, 0, k);
    assert(digits@ =~= v@.take(k as int));
    let parsed = parse_u32_digits(&digits);
    match parsed {
        None => None,
        Some(a) => {
            let amount: u32 = if a < 1 {
                1
            } else {
                a
            };
            let rest = slice_vec(&v, k, v.len());
            assert(rest@ =~= v@.skip(k as int));
            let u = trim_vec(&rest, None);
            if is_one_of(&u, "min", "minute", "minutes", "m") {
                Some((amount, QuoteIntervalUnit::Minutes))
            } else if is_one_of(&u, "h", "hr", "hour", "hours") {
                Some((amount, QuoteIntervalUnit::Hours))
            } else if equals_str(&u, "d") || equals_str(&u, "day") || equals_str(&u, "days") {
                Some((amount, QuoteIntervalUnit::Days))
            } else if u.len() == 0 || is_one_of(&u, "s", "sec", "second", "seconds") {
                let minutes: u32 = amount / 60 + if amount % 60 == 0 {
                    0
                } else {
                    1
                };
                assert(minutes == (amount + 59) / 60) by (nonlinear_arith)
                    requires
                        minutes == amount / 60 + if amount % 60 == 0 {
                            0int
                        } else {
                            1int
                        },
                ;
                Some((minutes, QuoteIntervalUnit::Minutes))
            } else {
                None
            }
        },
    }
}

/// Reads a systemd calendar shorthand as a quote interval.
pub fn parse_calendar_interval(value: &str) -> (r: Option<(u32, QuoteIntervalUnit)>)
    ensures
        r == calendar_interval_spec(value@),
{
    let cs = chars_of(value);
    calendar_interval_of(&cs)
}

fn calendar_interval_of(value: &Vec<char>) -> (r: Option<(u32, QuoteIntervalUnit)>)
    ensures
        r == calendar_interval_spec(value@),
{
    if equals_str(value, "minutely") {
        Some((1, QuoteIntervalUnit::Minutes))
    } else if equals_str(value, "hourly") {
        Some((1, QuoteIntervalUnit::Hours))
    } else if equals_str(value, "daily") {
        Some((1, QuoteIntervalUnit::Days))
    } else {
        None
    }
}


/// A trimmed line that opens a section of the unit file, such as `[Timer]`.
pub open spec fn is_section_header(line: Seq<char>) -> bool {
    has_prefix(line, "["@) && has_suffix(line, "]"@)
}

/// What a reader of the timer unit knows after some lines: whether it is inside the
/// `[Timer]` section, the interval of the first usable `OnUnitActiveSec=` setting, and
/// the interval of the last `OnCalendar=` setting (`None` when that one is unknown).
pub struct TimerScan {
    pub in_timer: bool,
    pub found: Option<(u32, QuoteIntervalUnit)>,
    pub calendar: Option<(u32, QuoteIntervalUnit)>,
}

pub open spec fn timer_scan_start() -> TimerScan {
    TimerScan { in_timer: false, found: None, calendar: None }
}

/// One line of the timer unit read. Comments (`#`, `;`) and lines outside `[Timer]`
/// change nothing; once an `OnUnitActiveSec=` value has been understood, nothing does.
pub open spec fn timer_scan_step(st: TimerScan, raw: Seq<char>) -> TimerScan {
    let line = trim(raw);
    if st.found is Some {
        st
    } else if is_section_header(line) {
        TimerScan { in_timer: line == "[Timer]"@, ..st }
    } else if !st.in_timer || has_prefix(line, "#"@) || has_prefix(line, ";"@) {
        st
    } else if has_prefix(line, "OnUnitActiveSec="@) && systemd_interval_spec(
        line.skip("OnUnitActiveSec="@.len() as int),
    ) is Some {
        TimerScan { found: systemd_interval_spec(line.skip("OnUnitActiveSec="@.len() as int)), ..st }
    } else if has_prefix(line, "OnCalendar="@) {
        TimerScan {
            calendar: calendar_interval_spec(trim(line.skip("OnCalendar="@.len() as int))),
            ..st
        }
    } else {
        st
    }
}

/// The reader's state after all of `lines`.
pub open spec fn timer_scan(lines: Seq<Seq<char>>) -> TimerScan
    decreases lines.len(),
{
    if lines.len() == 0 {
        timer_scan_start()
    } else {
        timer_scan_step(timer_scan(lines.drop_last()), lines.last())
    }
}

/// The quote interval that a timer unit sets: its first usable `OnUnitActiveSec=`,
/// else its last `OnCalendar=` shorthand, else one day.
pub open spec fn timer_interval_spec(contents: Seq<char>) -> (u32, QuoteIntervalUnit) {
    let st = timer_scan(lines_of(contents));
    match st.found {
        Some(iv) => iv,
        None => match st.calendar {
            Some(iv) => iv,
            None => (1, QuoteIntervalUnit::Days),
        },
    }
}

proof fn lemma_found_persists(lines: Seq<Seq<char>>, k: int)
    requires
        0 <= k <= lines.len(),
        timer_scan(lines.take(k)).found is Some,
    ensures
        timer_scan(lines).found == timer_scan(lines.take(k)).found,
    decreases lines.len() - k,
{
    if k < lines.len() {
        assert(lines.take(k + 1).drop_last() =~= lines.take(k));
        lemma_found_persists(lines, k + 1);
    } else {
        assert(lines.take(k) =~= lines);
    }
}

/// The quote interval that the timer unit `contents` sets.
pub fn parse_quote_timer_interval(contents: &str) -> (r: (u32, QuoteIntervalUnit))
    ensures
        r == timer_interval_spec(contents@),
{
    let cs = chars_of(contents);
    let lines = split_lines(&cs);
    let ghost ls = lines_of(contents@);
    let n = lines.len();
    let mut in_timer = false;
    let mut calendar: Option<(u32, QuoteIntervalUnit)> = None;
    let open = chars_of("[");
    let close = chars_of("]");
    let hash = chars_of("#");
    let semi = chars_of(";");
    let active_key = chars_of("OnUnitActiveSec=");
    let calendar_key = chars_of("OnCalendar=");
    let mut i: usize = 0;
    assert(ls.take(0) =~= Seq::<Seq<char>>::empty());
    while i < n
        invariant
            i <= n,
            n == lines@.len(),
            views(lines@) == ls,
            ls == lines_of(contents@),
            open@ == "["@,
            close@ == "]"@,
            hash@ == "#"@,
            semi@ == ";"@,
            active_key@ == "OnUnitActiveSec="@,
            calendar_key@ == "OnCalendar="@,
            timer_scan(ls.take(i as int)) == (TimerScan { in_timer, found: None, calendar }),
        decreases n - i,
    {
        let line = trim_vec(&lines[i], None);
        proof {
            assert(trim_pred(None) == crate::text::whitespace_pred());
            assert(ls.take(i + 1).drop_last() =~= ls.take(i as int));
            assert(ls.take(i + 1).last() == lines@[i as int]@);
        }
        if starts_with(&line, &open) && crate::text::ends_with(&line, &close) {
            in_timer = equals_str(&line, "[Timer]");
        } else if !in_timer || starts_with(&line, &hash) || starts_with(&line, &semi) {
        } else {
            let mut handled = false;
            if starts_with(&line, &active_key) {
                let rest = slice_vec(&line, active_key.len(), line.len());
                assert(rest@ =~= line@.skip("OnUnitActiveSec="@.len() as int));
                if let Some(iv) = systemd_interval_of(&rest) {
                    proof {
                        assert(timer_scan(ls.take(i + 1)).found == Some(iv));
                        lemma_found_persists(ls, i + 1);
                    }
                    return iv;
                }
            }
            if starts_with(&line, &calendar_key) {
                let rest = slice_vec(&line, calendar_key.len(), line.len());
                assert(rest@ =~= line@.skip("OnCalendar="@.len() as int));
                let value = trim_vec(&rest, None);
                calendar = calendar_interval_of(&value);
            }
        }
        i = i + 1;
    }
    assert(ls.take(n as int) =~= ls);
    match calendar {
        Some(iv) => iv,
        None => (1, QuoteIntervalUnit::Days),
    }
}


/// The interval written as a timer setting, such as `OnUnitActiveSec=30min`;
/// an interval of 0 is written as 1.
pub open spec fn interval_line_text(value: u32, unit: QuoteIntervalUnit) -> Seq<char> {
    let v: u32 = if value < 1 { 1 } else { value };
    "OnUnitActiveSec="@ + decimal_text(v as nat) + unit_suffix_text(unit)
}

/// The state of a rewrite of the timer unit after some lines: inside `[Timer]`,
/// seen a `[Timer]` header, already written the new interval, and the lines out so far.
pub open spec fn rewrite_step(
    st: (bool, bool, bool, Seq<Seq<char>>),
    raw: Seq<char>,
    setting: Seq<char>,
) -> (bool, bool, bool, Seq<Seq<char>>) {
    let (in_timer, saw_timer, inserted, out) = st;
    let line = trim(raw);
    if is_section_header(line) {
        // Leaving a `[Timer]` section: its new setting goes last in it.
        let out1 = if in_timer && !inserted {
            out.push(setting)
        } else {
            out
        };
        let now_timer = line == "[Timer]"@;
        (now_timer, saw_timer || now_timer, inserted || in_timer, out1.push(raw))
    } else if in_timer && (has_prefix(line, "OnCalendar="@) || has_prefix(
        line,
        "OnUnitActiveSec="@,
    )) {
        // Old schedule settings of the `[Timer]` section are dropped.
        st
    } else {
        (in_timer, saw_timer, inserted, out.push(raw))
    }
}

pub open spec fn rewrite_scan(lines: Seq<Seq<char>>, setting: Seq<char>) -> (
    bool,
    bool,
    bool,
    Seq<Seq<char>>,
)
    decreases lines.len(),
{
    if lines.len() == 0 {
        (false, false, false, Seq::empty())
    } else {
        rewrite_step(rewrite_scan(lines.drop_last(), setting), lines.last(), setting)
    }
}

/// The lines of the rewritten unit: a `[Timer]` section that ends the file receives the
/// setting at its end; a file without `[Timer]` receives one, after a blank line.
pub open spec fn rewrite_finish(st: (bool, bool, bool, Seq<Seq<char>>), setting: Seq<char>) -> Seq<
    Seq<char>,
> {
    let (in_timer, saw_timer, inserted, out) = st;
    if saw_timer && !inserted {
        out.push(setting)
    } else if !saw_timer {
        let o = if out.len() == 0 || out.last().len() != 0 {
            out.push(Seq::empty())
        } else {
            out
        };
        o.push("[Timer]"@).push(setting)
    } else {
        out
    }
}

/// The timer unit `contents` with its schedule replaced by the interval `value unit`.
pub open spec fn rewritten_timer_spec(contents: Seq<char>, value: u32, unit: QuoteIntervalUnit) -> Seq<
    char,
> {
    let setting = interval_line_text(value, unit);
    join_lines(rewrite_finish(rewrite_scan(lines_of(contents), setting), setting)) + seq!['\n']
}

/// The timer setting for an interval.
pub fn interval_line(value: u32, unit: QuoteIntervalUnit) -> (r: Vec<char>)
    ensures
        r@ == interval_line_text(value, unit),
{
    let v: u32 = if value < 1 {
        1
    } else {
        value
    };
    let mut r = chars_of("OnUnitActiveSec=");
    let digits = u32_text(v);
    append_vec(&mut r, &digits);
    append_str(&mut r, unit.systemd_suffix());
    r
}

/// The timer unit `contents` with its schedule replaced by the interval `value unit`,
/// as a quote interval change writes it.
pub fn rewrite_timer_contents(contents: &str, value: u32, unit: QuoteIntervalUnit) -> (r: String)
    ensures
        r@ == rewritten_timer_spec(contents@, value, unit),
{
    let cs = chars_of(contents);
    let lines = split_lines(&cs);
    let ghost ls = lines_of(contents@);
    let setting = interval_line(value, unit);
    let n = lines.len();
    let mut in_timer = false;
    let mut saw_timer = false;
    let mut inserted = false;
    let mut out: Vec<Vec<char>> = Vec::new();
    let open = chars_of("[");
    let close = chars_of("]");
    let active_key = chars_of("OnUnitActiveSec=");
    let calendar_key = chars_of("OnCalendar=");
    let mut i: usize = 0;
    assert(ls.take(0) =~= Seq::<Seq<char>>::empty());
    assert(views(out@) =~= Seq::<Seq<char>>::empty());
    while i < n
        invariant
            i <= n,
            n == lines@.len(),
            views(lines@) == ls,
            ls == lines_of(contents@),
            open@ == "["@,
            close@ == "]"@,
            active_key@ == "OnUnitActiveSec="@,
            calendar_key@ == "OnCalendar="@,
            setting@ == interval_line_text(value, unit),
            rewrite_scan(ls.take(i as int), setting@) == (in_timer, saw_timer, inserted, views(
                out@,
            )),
        decreases n - i,
    {
        let line = trim_vec(&lines[i], None);
        let raw = slice_vec(&lines[i], 0, lines[i].len());
        proof {
            assert(trim_pred(None) == crate::text::whitespace_pred());
            assert(ls.take(i + 1).drop_last() =~= ls.take(i as int));
            assert(ls.take(i + 1).last() == lines@[i as int]@);
            assert(raw@ =~= lines@[i as int]@);
        }
        if starts_with(&line, &open) && crate::text::ends_with(&line, &close) {
            if in_timer && !inserted {
                let copy = slice_vec(&setting, 0, setting.len());
                assert(copy@ =~= setting@);
                proof {
                    assert(views(out@.push(copy)) =~= views(out@).push(setting@));
                }
                out.push(copy);
            }
            inserted = inserted || in_timer;
            in_timer = equals_str(&line, "[Timer]");
            saw_timer = saw_timer || in_timer;
            proof {
                assert(views(out@.push(raw)) =~= views(out@).push(raw@));
            }
            out.push(raw);
        } else if in_timer && (starts_with(&line, &calendar_key) || starts_with(
            &line,
            &active_key,
        )) {
        } else {
            proof {
                assert(views(out@.push(raw)) =~= views(out@).push(raw@));
            }
            out.push(raw);
        }
        i = i + 1;
    }
    assert(ls.take(n as int) =~= ls);
    if saw_timer && !inserted {
        proof {
            assert(views(out@.push(setting)) =~= views(out@).push(setting@));
        }
        out.push(setting);
    } else if !saw_timer {
        let need_blank = if out.len() == 0 {
            true
        } else {
            out[out.len() - 1].len() != 0
        };
        if need_blank {
            let blank: Vec<char> = Vec::new();
            proof {
                assert(views(out@.push(blank)) =~= views(out@).push(blank@));
            }
            out.push(blank);
        }
        let header = chars_of("[Timer]");
        proof {
            assert(views(out@.push(header)) =~= views(out@).push(header@));
        }
        out.push(header);
        proof {
            assert(views(out@.push(setting)) =~= views(out@).push(setting@));
        }
        out.push(setting);
    }
    let mut text = join_with_newlines(&out);
    text.push('\n');
    string_from_chars(text)
}


proof fn lemma_leading_digits_concat(d: Seq<char>, rest: Seq<char>)
    requires
        forall|i: int| 0 <= i < d.len() ==> is_ascii_digit(#[trigger] d[i]),
        rest.len() > 0,
        !is_ascii_digit(rest[0]),
    ensures
        leading_digit_count(d + rest) == d.len(),
    decreases d.len(),
{
    if d.len() == 0 {
        assert(d + rest =~= rest);
    } else {
        assert((d + rest).drop_first() =~= d.drop_first() + rest);
        assert((d + rest)[0] == d[0]);
        lemma_leading_digits_concat(d.drop_first(), rest);
    }
}

/// Facts about the setting line that a rewrite writes, as a reader sees it.
#[verifier::spinoff_prover]
#[verifier::rlimit(40)]
proof fn lemma_setting_line(value: u32, unit: QuoteIntervalUnit)
    ensures
        ({
            let s = interval_line_text(value, unit);
            let v: u32 = if value < 1 { 1 } else { value };
            &&& trim(s) == s
            &&& !is_section_header(s)
            &&& !has_prefix(s, "#"@)
            &&& !has_prefix(s, ";"@)
            &&& has_prefix(s, "OnUnitActiveSec="@)
            &&& systemd_interval_spec(s.skip("OnUnitActiveSec="@.len() as int)) == Some((v, unit))
            &&& has_no_newline(s)
        }),
{
    reveal_strlit("OnUnitActiveSec=");
    reveal_strlit("min");
    reveal_strlit("h");
    reveal_strlit("d");
    reveal_strlit("minute");
    reveal_strlit("minutes");
    reveal_strlit("m");
    reveal_strlit("hr");
    reveal_strlit("hour");
    reveal_strlit("hours");
    reveal_strlit("day");
    reveal_strlit("days");
    reveal_strlit("[");
    reveal_strlit("#");
    reveal_strlit(";");
    let key = "OnUnitActiveSec="@;
    let v: u32 = if value < 1 { 1 } else { value };
    let d = decimal_text(v as nat);
    let suf = unit_suffix_text(unit);
    let s = interval_line_text(value, unit);
    lemma_decimal_text(v as nat);
    assert(s =~= key + (d + suf));
    assert(suf.len() > 0);
    assert(!is_whitespace(s[0]));
    assert(s.last() == suf.last());
    assert(!is_whitespace(s.last()));
    lemma_trim_noop(s, whitespace_pred());
    assert(s[0] == 'O');
    assert(s.take(1) =~= seq!['O']);
    assert(s.take(key.len() as int) =~= key);
    let body = d + suf;
    assert(s.skip(key.len() as int) =~= body);
    assert(!is_whitespace(body[0]));
    assert(body.last() == suf.last());
    lemma_trim_noop(body, whitespace_pred());
    lemma_leading_digits_concat(d, suf);
    assert(body.take(d.len() as int) =~= d);
    assert(body.skip(d.len() as int) =~= suf);
    lemma_trim_noop(suf, whitespace_pred());
    assert forall|k: int| 0 <= k < s.len() implies s[k] != '\n' by {
        if k >= key.len() + d.len() {
            assert(s[k] == suf[k - key.len() - d.len()]);
        } else if k >= key.len() {
            assert(s[k] == d[k - key.len()]);
            assert(is_ascii_digit(d[k - key.len()]));
        }
    }
}

/// Two lists of lines with the same trimmed lines read the same.
proof fn lemma_scan_same_trims(a: Seq<Seq<char>>, b: Seq<Seq<char>>)
    requires
        a.len() == b.len(),
        forall|k: int| 0 <= k < a.len() ==> trim(#[trigger] a[k]) == trim(b[k]),
    ensures
        timer_scan(a) == timer_scan(b),
    decreases a.len(),
{
    if a.len() > 0 {
        lemma_scan_same_trims(a.drop_last(), b.drop_last());
        assert(trim(a[a.len() - 1]) == trim(b[b.len() - 1]));
    }
}

proof fn lemma_scan_push(ls: Seq<Seq<char>>, l: Seq<char>)
    ensures
        timer_scan(ls.push(l)) == timer_scan_step(timer_scan(ls), l),
{
    assert(ls.push(l).drop_last() =~= ls);
}

/// While a rewrite runs, a reader of the lines written so far is in step with it: it has
/// found no interval before the new setting is written, and the new one after.
proof fn lemma_rewrite_read_in_step(ls: Seq<Seq<char>>, value: u32, unit: QuoteIntervalUnit)
    requires
        forall|k: int| 0 <= k < ls.len() ==> has_no_newline(#[trigger] ls[k]),
    ensures
        ({
            let setting = interval_line_text(value, unit);
            let v: u32 = if value < 1 { 1 } else { value };
            let (in_timer, saw_timer, inserted, out) = rewrite_scan(ls, setting);
            let rd = timer_scan(out);
            &&& !inserted ==> rd.found is None && rd.in_timer == in_timer
            &&& inserted ==> rd.found == Some((v, unit)) && out.len() > 0
            &&& saw_timer && !inserted ==> in_timer
            &&& !saw_timer ==> !in_timer && !inserted
            &&& forall|k: int| 0 <= k < out.len() ==> has_no_newline(#[trigger] out[k])
        }),
    decreases ls.len(),
{
    let setting = interval_line_text(value, unit);
    let v: u32 = if value < 1 { 1 } else { value };
    lemma_setting_line(value, unit);
    if ls.len() > 0 {
        let prev = ls.drop_last();
        assert forall|k: int| 0 <= k < prev.len() implies has_no_newline(#[trigger] prev[k]) by {
            assert(prev[k] == ls[k]);
        }
        lemma_rewrite_read_in_step(prev, value, unit);
        let (in_timer, saw_timer, inserted, out) = rewrite_scan(prev, setting);
        let raw = ls.last();
        assert(has_no_newline(ls[ls.len() - 1]));
        let line = trim(raw);
        if is_section_header(line) {
            if in_timer && !inserted {
                lemma_scan_push(out, setting);
                lemma_scan_push(out.push(setting), raw);
            } else {
                lemma_scan_push(out, raw);
            }
        } else if in_timer && (has_prefix(line, "OnCalendar="@) || has_prefix(
            line,
            "OnUnitActiveSec="@,
        )) {
        } else {
            lemma_scan_push(out, raw);
        }
        let (i2, s2, n2, o2) = rewrite_scan(ls, setting);
        assert forall|k: int| 0 <= k < o2.len() implies has_no_newline(#[trigger] o2[k]) by {
            if k < out.len() {
                assert(o2[k] == out[k]);
            }
        }
    }
}

/// A rewrite's last lines put the new setting in effect for a reader.
proof fn lemma_rewrite_finish_read(ls: Seq<Seq<char>>, value: u32, unit: QuoteIntervalUnit)
    requires
        forall|k: int| 0 <= k < ls.len() ==> has_no_newline(#[trigger] ls[k]),
    ensures
        ({
            let setting = interval_line_text(value, unit);
            let v: u32 = if value < 1 { 1 } else { value };
            let fin = rewrite_finish(rewrite_scan(ls, setting), setting);
            &&& timer_scan(fin).found == Some((v, unit))
            &&& fin.len() > 0
            &&& forall|k: int| 0 <= k < fin.len() ==> has_no_newline(#[trigger] fin[k])
        }),
{
    let setting = interval_line_text(value, unit);
    let v: u32 = if value < 1 { 1 } else { value };
    lemma_setting_line(value, unit);
    lemma_rewrite_read_in_step(ls, value, unit);
    let (in_timer, saw_timer, inserted, out) = rewrite_scan(ls, setting);
    let fin = rewrite_finish(rewrite_scan(ls, setting), setting);
    reveal_strlit("[Timer]");
    reveal_strlit("[");
    reveal_strlit("]");
    if saw_timer && !inserted {
        lemma_scan_push(out, setting);
        assert forall|k: int| 0 <= k < fin.len() implies has_no_newline(#[trigger] fin[k]) by {
            if k < out.len() {
                assert(fin[k] == out[k]);
            }
        }
    } else if !saw_timer {
        let o = if out.len() == 0 || out.last().len() != 0 {
            out.push(Seq::empty())
        } else {
            out
        };
        let header = "[Timer]"@;
        if out.len() == 0 || out.last().len() != 0 {
            lemma_scan_push(out, Seq::empty());
            assert(trim(Seq::<char>::empty()) == Seq::<char>::empty());
        }
        assert(timer_scan(o).found is None);
        assert(!timer_scan(o).in_timer);
        lemma_scan_push(o, header);
        assert(!is_whitespace(header[0]) && !is_whitespace(header.last()));
        lemma_trim_noop(header, whitespace_pred());
        assert(header.take(1) =~= "["@);
        assert(header.skip(header.len() - 1) =~= "]"@);
        assert(is_section_header(trim(header)));
        lemma_scan_push(o.push(header), setting);
        assert forall|k: int| 0 <= k < fin.len() implies has_no_newline(#[trigger] fin[k]) by {
            if k < out.len() {
                assert(fin[k] == out[k]);
            }
        }
    }
}

/// Reading back a rewritten timer unit gives the interval written (0 is written as 1).
pub proof fn lemma_rewrite_then_read(contents: Seq<char>, value: u32, unit: QuoteIntervalUnit)
    ensures
        timer_interval_spec(rewritten_timer_spec(contents, value, unit)) == (
            if value < 1 { 1u32 } else { value },
            unit,
        ),
{
    let setting = interval_line_text(value, unit);
    let ls = lines_of(contents);
    lemma_lines_have_no_newline(contents, 0);
    lemma_rewrite_finish_read(ls, value, unit);
    let fin = rewrite_finish(rewrite_scan(ls, setting), setting);
    lemma_join_terminated(fin);
    lemma_lines_of_terminated(fin);
    let back = fin.map_values(|l: Seq<char>| strip_cr(l));
    assert forall|k: int| 0 <= k < back.len() implies trim(#[trigger] back[k]) == trim(fin[k]) by {
        lemma_trim_strip_cr(fin[k]);
    }
    lemma_scan_same_trims(back, fin);
}

/// A line that reading it back does not shorten: it does not end with a carriage return.
pub open spec fn ends_without_cr(l: Seq<char>) -> bool {
    l.len() == 0 || l.last() != '\r'
}

proof fn lemma_rewrite_scan_push(ls: Seq<Seq<char>>, l: Seq<char>, setting: Seq<char>)
    ensures
        rewrite_scan(ls.push(l), setting) == rewrite_step(rewrite_scan(ls, setting), l, setting),
{
    assert(ls.push(l).drop_last() =~= ls);
}

/// Rewriting the lines that a rewrite wrote, line by line, keeps the rewrite's state.
proof fn lemma_rescan_in_step(ls: Seq<Seq<char>>, value: u32, unit: QuoteIntervalUnit)
    ensures
        ({
            let setting = interval_line_text(value, unit);
            let st = rewrite_scan(ls, setting);
            rewrite_scan(st.3, setting) == st
        }),
    decreases ls.len(),
{
    let setting = interval_line_text(value, unit);
    lemma_setting_line(value, unit);
    if ls.len() > 0 {
        let prev = ls.drop_last();
        lemma_rescan_in_step(prev, value, unit);
        let st_p = rewrite_scan(prev, setting);
        let (in_timer, saw_timer, inserted, out_p) = st_p;
        let raw = ls.last();
        let line = trim(raw);
        if is_section_header(line) {
            if in_timer && !inserted {
                lemma_rewrite_scan_push(out_p, setting, setting);
                assert(rewrite_step(st_p, setting, setting) == st_p);
                lemma_rewrite_scan_push(out_p.push(setting), raw, setting);
            } else {
                lemma_rewrite_scan_push(out_p, raw, setting);
            }
        } else if in_timer && (has_prefix(line, "OnCalendar="@) || has_prefix(
            line,
            "OnUnitActiveSec="@,
        )) {
        } else {
            lemma_rewrite_scan_push(out_p, raw, setting);
        }
    } else {
        assert(rewrite_scan(Seq::<Seq<char>>::empty(), setting).3 =~= Seq::<Seq<char>>::empty());
    }
}

/// A rewrite writes no line that ends with a carriage return when it reads none.
proof fn lemma_rewrite_keeps_no_cr(ls: Seq<Seq<char>>, value: u32, unit: QuoteIntervalUnit)
    requires
        forall|k: int| 0 <= k < ls.len() ==> ends_without_cr(#[trigger] ls[k]),
    ensures
        ({
            let setting = interval_line_text(value, unit);
            let out = rewrite_scan(ls, setting).3;
            forall|k: int| 0 <= k < out.len() ==> ends_without_cr(#[trigger] out[k])
        }),
    decreases ls.len(),
{
    let setting = interval_line_text(value, unit);
    reveal_strlit("min");
    reveal_strlit("h");
    reveal_strlit("d");
    assert(ends_without_cr(setting)) by {
        assert(setting.last() == unit_suffix_text(unit).last());
    }
    if ls.len() > 0 {
        let prev = ls.drop_last();
        assert forall|k: int| 0 <= k < prev.len() implies ends_without_cr(#[trigger] prev[k]) by {
            assert(prev[k] == ls[k]);
        }
        lemma_rewrite_keeps_no_cr(prev, value, unit);
        assert(ends_without_cr(ls[ls.len() - 1]));
        let out_p = rewrite_scan(prev, setting).3;
        let out = rewrite_scan(ls, setting).3;
        assert forall|k: int| 0 <= k < out.len() implies ends_without_cr(#[trigger] out[k]) by {
            if k < out_p.len() {
                assert(out[k] == out_p[k]);
            }
        }
    }
}

/// Applying the same interval twice writes what applying it once wrote, for a unit file
/// none of whose lines ends with a carriage return (reading a written line drops one).
pub proof fn lemma_rewrite_twice(contents: Seq<char>, value: u32, unit: QuoteIntervalUnit)
    requires
        forall|k: int|
            0 <= k < lines_of(contents).len() ==> ends_without_cr(#[trigger] lines_of(contents)[k]),
    ensures
        rewritten_timer_spec(rewritten_timer_spec(contents, value, unit), value, unit)
            == rewritten_timer_spec(contents, value, unit),
{
    let setting = interval_line_text(value, unit);
    let ls = lines_of(contents);
    lemma_setting_line(value, unit);
    lemma_lines_have_no_newline(contents, 0);
    lemma_rewrite_finish_read(ls, value, unit);
    lemma_rewrite_read_in_step(ls, value, unit);
    lemma_rescan_in_step(ls, value, unit);
    lemma_rewrite_keeps_no_cr(ls, value, unit);
    let st = rewrite_scan(ls, setting);
    let (in_timer, saw_timer, inserted, out) = st;
    let fin = rewrite_finish(st, setting);
    reveal_strlit("[Timer]");
    reveal_strlit("min");
    reveal_strlit("h");
    reveal_strlit("d");
    assert(ends_without_cr(setting)) by {
        assert(setting.last() == unit_suffix_text(unit).last());
    }
    let header = "[Timer]"@;
    reveal_strlit("[");
    reveal_strlit("]");
    // Every written line reads back unchanged.
    assert forall|k: int| 0 <= k < fin.len() implies ends_without_cr(#[trigger] fin[k]) by {
        if k < out.len() {
            assert(fin[k] == out[k]);
        }
    }
    lemma_join_terminated(fin);
    lemma_lines_of_terminated(fin);
    assert(fin.map_values(|l: Seq<char>| strip_cr(l)) =~= fin);
    assert(lines_of(rewritten_timer_spec(contents, value, unit)) == fin);
    // Rewriting those lines again ends in the same lines.
    if saw_timer && !inserted {
        lemma_rewrite_scan_push(out, setting, setting);
    } else if !saw_timer {
        let o = if out.len() == 0 || out.last().len() != 0 {
            out.push(Seq::empty())
        } else {
            out
        };
        if out.len() == 0 || out.last().len() != 0 {
            lemma_rewrite_scan_push(out, Seq::empty(), setting);
            assert(trim(Seq::<char>::empty()) == Seq::<char>::empty());
            assert(!is_section_header(Seq::<char>::empty()));
        }
        assert(rewrite_scan(o, setting) == (false, false, false, o));
        assert(!is_whitespace(header[0]) && !is_whitespace(header.last()));
        lemma_trim_noop(header, whitespace_pred());
        assert(header.take(1) =~= "["@);
        assert(header.skip(header.len() - 1) =~= "]"@);
        assert(is_section_header(trim(header)));
        lemma_rewrite_scan_push(o, header, setting);
        lemma_rewrite_scan_push(o.push(header), setting, setting);
    }
    assert(rewrite_finish(rewrite_scan(fin, setting), setting) == fin);
}

/// An old schedule setting: a line that, trimmed, starts with `OnCalendar=` or
/// `OnUnitActiveSec=`.
pub open spec fn is_schedule_line(l: Seq<char>) -> bool {
    has_prefix(trim(l), "OnCalendar="@) || has_prefix(trim(l), "OnUnitActiveSec="@)
}

/// Where each line that is not a schedule setting went among the lines a rewrite wrote.
proof fn lemma_scan_keeps_lines(ls: Seq<Seq<char>>, setting: Seq<char>) -> (f: Seq<int>)
    ensures
        f.len() == ls.len(),
        forall|i: int|
            0 <= i < ls.len() && !is_schedule_line(ls[i]) ==> 0 <= #[trigger] f[i]
                < rewrite_scan(ls, setting).3.len() && rewrite_scan(ls, setting).3[f[i]] == ls[i],
        forall|i: int, j: int|
            0 <= i < j < ls.len() && !is_schedule_line(ls[i]) && !is_schedule_line(ls[j])
                ==> #[trigger] f[i] < #[trigger] f[j],
    decreases ls.len(),
{
    if ls.len() == 0 {
        Seq::empty()
    } else {
        let prev = ls.drop_last();
        let fp = lemma_scan_keeps_lines(prev, setting);
        let out_p = rewrite_scan(prev, setting).3;
        let out = rewrite_scan(ls, setting).3;
        let raw = ls.last();
        assert(out.len() >= out_p.len());
        assert forall|k: int| 0 <= k < out_p.len() implies out[k] == out_p[k] by {}
        let f = fp.push(if is_schedule_line(raw) { 0 } else { out.len() - 1 });
        assert forall|i: int|
            0 <= i < ls.len() && !is_schedule_line(ls[i]) implies 0 <= #[trigger] f[i]
                < out.len() && out[f[i]] == ls[i] by {
            if i < prev.len() {
                assert(ls[i] == prev[i]);
                assert(f[i] == fp[i]);
            } else {
                assert(ls[i] == raw);
                assert(out.len() == out_p.len() + 1 || out.len() == out_p.len() + 2);
                assert(out[out.len() - 1] == raw);
            }
        }
        assert forall|i: int, j: int|
            0 <= i < j < ls.len() && !is_schedule_line(ls[i]) && !is_schedule_line(ls[j])
                implies #[trigger] f[i] < #[trigger] f[j] by {
            assert(ls[i] == prev[i]);
            assert(f[i] == fp[i]);
            if j < prev.len() {
                assert(ls[j] == prev[j]);
                assert(f[j] == fp[j]);
            } else {
                assert(ls[j] == raw);
                assert(out.len() > out_p.len());
            }
        }
        f
    }
}

/// A rewrite keeps every line that is not an old schedule setting, unchanged and in
/// order (reading it back drops a carriage return at its end, as reading any line does);
/// it only takes out old `OnCalendar=` and `OnUnitActiveSec=` settings and adds the new
/// one.
pub proof fn lemma_rewrite_keeps_other_lines(contents: Seq<char>, value: u32, unit: QuoteIntervalUnit)
    ensures
        ({
            let ls = lines_of(contents);
            let out = lines_of(rewritten_timer_spec(contents, value, unit));
            exists|f: Seq<int>|
                {
                    &&& f.len() == ls.len()
                    &&& forall|i: int|
                        0 <= i < ls.len() && !is_schedule_line(ls[i]) ==> 0 <= #[trigger] f[i]
                            < out.len() && out[f[i]] == strip_cr(ls[i])
                    &&& forall|i: int, j: int|
                        0 <= i < j < ls.len() && !is_schedule_line(ls[i]) && !is_schedule_line(
                            ls[j],
                        ) ==> #[trigger] f[i] < #[trigger] f[j]
                }
        }),
{
    let setting = interval_line_text(value, unit);
    let ls = lines_of(contents);
    lemma_lines_have_no_newline(contents, 0);
    lemma_rewrite_finish_read(ls, value, unit);
    let st = rewrite_scan(ls, setting);
    let fin = rewrite_finish(st, setting);
    let f = lemma_scan_keeps_lines(ls, setting);
    lemma_join_terminated(fin);
    lemma_lines_of_terminated(fin);
    let out = lines_of(rewritten_timer_spec(contents, value, unit));
    assert(out == fin.map_values(|l: Seq<char>| strip_cr(l)));
    assert(fin.len() >= st.3.len());
    assert forall|k: int| 0 <= k < st.3.len() implies fin[k] == st.3[k] by {}
    assert forall|i: int|
        0 <= i < ls.len() && !is_schedule_line(ls[i]) implies 0 <= #[trigger] f[i] < out.len()
            && out[f[i]] == strip_cr(ls[i]) by {
        assert(fin[f[i]] == st.3[f[i]]);
    }
}

/// A time span written as a number of at least 1 followed by a unit's suffix, as
/// `format!("{}{}", n, unit.systemd_suffix())` writes it, reads back as that interval.
pub proof fn lemma_interval_text_round_trip(n: u32, unit: QuoteIntervalUnit)
    requires
        n >= 1,
    ensures
        systemd_interval_spec(decimal_text(n as nat) + unit_suffix_text(unit)) == Some((n, unit)),
{
    lemma_setting_line(n, unit);
    reveal_strlit("OnUnitActiveSec=");
    let s = interval_line_text(n, unit);
    assert(s.skip("OnUnitActiveSec="@.len() as int) =~= decimal_text(n as nat) + unit_suffix_text(
        unit,
    ));
}

/// Every interval read from a time span is at least 1.
pub proof fn lemma_interval_at_least_one(value: Seq<char>)
    ensures
        systemd_interval_spec(value) matches Some((m, _)) ==> m >= 1,
{
}

/// The file name of the quote timer unit.
pub const TIMER_UNIT_NAME: &'static str = "marxist-quote-fetch.timer";

/// The timer unit in the directory `dir`.
pub open spec fn timer_unit_at(dir: Seq<u8>) -> Seq<u8> {
    path_join(dir, text_bytes(TIMER_UNIT_NAME@))
}

/// The bytes of each path.
pub open spec fn path_bytes(v: Seq<Vec<u8>>) -> Seq<Seq<u8>> {
    v.map_values(|p: Vec<u8>| p@)
}

/// Where the timer unit may be installed, in the order they are looked at: under the
/// user's configuration directory when there is one, then the system's unit directories.
pub open spec fn timer_candidates_spec(config_base: Option<Seq<u8>>) -> Seq<Seq<u8>> {
    let system = seq![
        timer_unit_at(text_bytes("/etc/systemd/user"@)),
        timer_unit_at(text_bytes("/usr/local/lib/systemd/user"@)),
        timer_unit_at(text_bytes("/usr/lib/systemd/user"@)),
    ];
    match config_base {
        Some(b) => seq![timer_unit_at(path_join(b, text_bytes("systemd/user"@)))] + system,
        None => system,
    }
}

/// The places where the timer unit may be installed, in the order they are looked at.
pub fn fetch_timer_candidates() -> (r: Vec<Vec<u8>>)
    ensures
        exists|b: Option<Seq<u8>>| usable_base(b) && path_bytes(r@) == timer_candidates_spec(b),
{
    let base = user_config_dir();
    let ghost gb = opt_view(base);
    let mut r: Vec<Vec<u8>> = Vec::new();
    match base {
        Some(b) => {
            let dir = join_path(b.as_slice(), "systemd/user".as_bytes());
            r.push(join_path(dir.as_slice(), TIMER_UNIT_NAME.as_bytes()));
        },
        None => {},
    }
    r.push(join_path("/etc/systemd/user".as_bytes(), TIMER_UNIT_NAME.as_bytes()));
    r.push(join_path("/usr/local/lib/systemd/user".as_bytes(), TIMER_UNIT_NAME.as_bytes()));
    r.push(join_path("/usr/lib/systemd/user".as_bytes(), TIMER_UNIT_NAME.as_bytes()));
    assert(path_bytes(r@) =~= timer_candidates_spec(gb));
    r
}

/// The first candidate that exists (`exists` tells which do), or the unit in
/// `/usr/lib/systemd/user` when none does.
pub open spec fn first_existing(candidates: Seq<Seq<u8>>, exists: Seq<bool>) -> Seq<u8>
    decreases candidates.len(),
{
    if candidates.len() == 0 || exists.len() == 0 {
        timer_unit_at(text_bytes("/usr/lib/systemd/user"@))
    } else if exists[0] {
        candidates[0]
    } else {
        first_existing(candidates.drop_first(), exists.drop_first())
    }
}

/// Chooses the timer unit among the candidates, knowing which of them exist.
pub fn pick_fetch_timer_path(candidates: &Vec<Vec<u8>>, exists: &Vec<bool>) -> (r: Vec<u8>)
    requires
        candidates@.len() == exists@.len(),
    ensures
        r@ == first_existing(path_bytes(candidates@), exists@),
{
    let n = candidates.len();
    let mut i: usize = 0;
    assert(path_bytes(candidates@).skip(0) =~= path_bytes(candidates@));
    assert(exists@.skip(0) =~= exists@);
    while i < n
        invariant
            i <= n,
            n == candidates@.len(),
            n == exists@.len(),
            first_existing(path_bytes(candidates@), exists@) == first_existing(
                path_bytes(candidates@).skip(i as int),
                exists@.skip(i as int),
            ),
        decreases n - i,
    {
        proof {
            let c = path_bytes(candidates@).skip(i as int);
            let e = exists@.skip(i as int);
            assert(c.drop_first() =~= path_bytes(candidates@).skip(i + 1));
            assert(e.drop_first() =~= exists@.skip(i + 1));
            assert(c[0] == candidates@[i as int]@);
            assert(e[0] == exists@[i as int]);
        }
        if exists[i] {
            return vstd::slice::slice_to_vec(candidates[i].as_slice());
        }
        i = i + 1;
    }
    join_path("/usr/lib/systemd/user".as_bytes(), TIMER_UNIT_NAME.as_bytes())
}

} // verus!
