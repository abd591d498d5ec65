//! Scheduled tasks: matching cron expressions against a wall-clock minute,
//! running each task once per due minute, and what a task does.
use vstd::prelude::*;
use crate::numbers::{parse_u32_range, parse_u32_spec};
use crate::process::{word_ranges, words};
use crate::text::{ascii_upper, chars_eq, chars_of, eq_ignore_ascii_case, find_char, first_index_of,
    line_ranges, lines, range_eq, ranges_view, ranges_within, split_char, split_once, split_ranges,
    starts_with, string_from_range, to_ascii_upper, trim, trim_range};
use crate::validation::{command_arg_problem, validate_safe_command_arg, ValidationError};
use crate::text::{is_ws, is_whitespace, sub_chars, string_from_chars, is_ascii_digit, starts_with_exec};
use chrono_tz::Tz;

verus! {

broadcast use vstd::string::group_string_axioms;

/// The wall-clock minute a cron expression is matched against, with the key
/// that identifies the minute in its time zone.
pub struct CronMoment {
    pub minute: u32,
    pub hour: u32,
    pub day: u32,
    pub month: u32,
    /// Days since Sunday.
    pub day_of_week: u32,
    pub bucket: String,
}

/// Which names a cron field accepts besides numbers.
#[derive(Clone, Copy, PartialEq, Eq, Structural)]
pub enum CronNames {
    Numbers,
    Months,
    Weekdays,
}

/// The number a month or weekday name stands for, ignoring ASCII case.
pub open spec fn name_number(names: CronNames, v: Seq<char>) -> Option<u32> {
    match names {
        CronNames::Numbers => None,
        CronNames::Months => if eq_ignore_ascii_case(v, "JAN"@) { Some(1) }
            else if eq_ignore_ascii_case(v, "FEB"@) { Some(2) }
            else if eq_ignore_ascii_case(v, "MAR"@) { Some(3) }
            else if eq_ignore_ascii_case(v, "APR"@) { Some(4) }
            else if eq_ignore_ascii_case(v, "MAY"@) { Some(5) }
            else if eq_ignore_ascii_case(v, "JUN"@) { Some(6) }
            else if eq_ignore_ascii_case(v, "JUL"@) { Some(7) }
            else if eq_ignore_ascii_case(v, "AUG"@) { Some(8) }
            else if eq_ignore_ascii_case(v, "SEP"@) { Some(9) }
            else if eq_ignore_ascii_case(v, "OCT"@) { Some(10) }
            else if eq_ignore_ascii_case(v, "NOV"@) { Some(11) }
            else if eq_ignore_ascii_case(v, "DEC"@) { Some(12) }
            else { None },
        CronNames::Weekdays => if eq_ignore_ascii_case(v, "SUN"@) { Some(0) }
            else if eq_ignore_ascii_case(v, "MON"@) { Some(1) }
            else if eq_ignore_ascii_case(v, "TUE"@) { Some(2) }
            else if eq_ignore_ascii_case(v, "WED"@) { Some(3) }
            else if eq_ignore_ascii_case(v, "THU"@) { Some(4) }
            else if eq_ignore_ascii_case(v, "FRI"@) { Some(5) }
            else if eq_ignore_ascii_case(v, "SAT"@) { Some(6) }
            else { None },
    }
}

/// A cron value: a number, or a name the field accepts.
#[verifier::opaque]
pub open spec fn cron_value(v: Seq<char>, names: CronNames) -> Option<u32> {
    match parse_u32_spec(v) {
        Some(n) => Some(n),
        None => name_number(names, v),
    }
}

pub open spec fn is_star(s: Seq<char>) -> bool {
    s == "*"@ || s == "?"@
}

/// An item's base and step: `base/step` with a positive step, or the item
/// alone; `None` when the step is not a positive number.
pub open spec fn item_step(item: Seq<char>) -> Option<(Seq<char>, Option<u32>)> {
    match split_once(item, '/') {
        Some((base, step)) => match parse_u32_spec(step) {
            Some(n) => if n > 0 { Some((base, Some(n))) } else { None },
            None => None,
        },
        None => Some((item, None)),
    }
}

/// The range an item's base covers: the whole field for `*` or `?`, `a-b`
/// within the field, or one value (up to the field's end when stepped).
pub open spec fn item_range(base: Seq<char>, stepped: bool, min: u32, max: u32, names: CronNames) -> Option<(u32, u32)> {
    if is_star(base) {
        Some((min, max))
    } else {
        match split_once(base, '-') {
            Some((a, b)) => match (cron_value(a, names), cron_value(b, names)) {
                (Some(s), Some(e)) => if s > e || s < min || e > max { None } else { Some((s, e)) },
                _ => None,
            },
            None => match cron_value(base, names) {
                Some(s) => if s < min || s > max { None } else { Some((s, if stepped { max } else { s })) },
                None => None,
            },
        }
    }
}

/// Whether one item of a cron field admits `value`.
pub open spec fn cron_item(item: Seq<char>, value: u32, min: u32, max: u32, names: CronNames) -> bool {
    if item.len() == 0 {
        false
    } else if is_star(item) {
        true
    } else {
        match item_step(item) {
            None => false,
            Some((base, step)) => match item_range(base, step is Some, min, max, names) {
                None => false,
                Some((s, e)) => s <= value <= e && match step {
                    Some(k) => (value - s) % (k as int) == 0,
                    None => true,
                },
            },
        }
    }
}

/// Whether some item of a comma-separated field admits `value`.
pub open spec fn cron_field(field: Seq<char>, value: u32, min: u32, max: u32, names: CronNames) -> bool {
    let items = split_char(field, ',');
    exists|i: int| 0 <= i < items.len() && cron_item(trim(#[trigger] items[i]), value, min, max, names)
}

/// Whether some item of a field is `*` or `?` with no step above 1.
pub open spec fn star_item(item: Seq<char>) -> bool {
    let t = trim(item);
    match split_once(t, '/') {
        Some((base, step)) => is_star(base) && match parse_u32_spec(step) {
            Some(n) => n <= 1,
            None => false,
        },
        None => is_star(t),
    }
}

pub open spec fn has_star_item(field: Seq<char>) -> bool {
    let items = split_char(field, ',');
    exists|i: int| 0 <= i < items.len() && star_item(#[trigger] items[i])
}

/// Whether a five-field cron expression matches the minute. Day of month and
/// day of week must both match when either is unrestricted, else one of them.
pub open spec fn standard_cron(expression: Seq<char>, m: CronMoment) -> bool {
    let parts = words(expression);
    if parts.len() != 5 {
        false
    } else {
        let dom = cron_field(parts[2], m.day, 1, 31, CronNames::Numbers);
        let dow = cron_field(parts[4], m.day_of_week, 0, 6, CronNames::Weekdays);
        let day = if has_star_item(parts[2]) || has_star_item(parts[4]) { dom && dow } else { dom || dow };
        cron_field(parts[0], m.minute, 0, 59, CronNames::Numbers) && cron_field(parts[1], m.hour, 0, 23, CronNames::Numbers)
            && cron_field(parts[3], m.month, 1, 12, CronNames::Months) && day
    }
}

/// Whether a predefined schedule such as `@daily` matches the minute.
pub open spec fn descriptor(expression: Seq<char>, m: CronMoment) -> bool {
    if expression == "@yearly"@ || expression == "@annually"@ {
        m.month == 1 && m.day == 1 && m.hour == 0 && m.minute == 0
    } else if expression == "@monthly"@ {
        m.day == 1 && m.hour == 0 && m.minute == 0
    } else if expression == "@weekly"@ {
        m.day_of_week == 0 && m.hour == 0 && m.minute == 0
    } else if expression == "@daily"@ || expression == "@midnight"@ {
        m.hour == 0 && m.minute == 0
    } else if expression == "@hourly"@ {
        m.minute == 0
    } else {
        false
    }
}

/// Whether `v[lo..hi]` equals `pat` ignoring ASCII case.
fn range_eq_ignore_case(v: &Vec<char>, lo: usize, hi: usize, pat: &str) -> (b: bool)
    requires
        lo <= hi <= v.len(),
    ensures
        b == eq_ignore_ascii_case(v@.subrange(lo as int, hi as int), pat@),
{
    let p = chars_of(pat);
    if hi - lo != p.len() {
        return false;
    }
    let mut i: usize = 0;
    while i < p.len()
        invariant
            hi - lo == p.len(),
            lo <= hi <= v.len(),
            p@ == pat@,
            i <= p.len(),
            forall|j: int| 0 <= j < i ==> ascii_upper(v@[lo + j]) == ascii_upper(p@[j]),
        decreases p.len() - i,
    {
        if to_ascii_upper(v[lo + i]) != to_ascii_upper(p[i]) {
            assert(ascii_upper(v@.subrange(lo as int, hi as int)[i as int]) != ascii_upper(p@[i as int]));
            return false;
        }
        i = i + 1;
    }
    true
}

fn name_number_exec(names: CronNames, v: &Vec<char>, lo: usize, hi: usize) -> (r: Option<u32>)
    requires
        lo <= hi <= v.len(),
    ensures
        r == name_number(names, v@.subrange(lo as int, hi as int)),
{
    match names {
        CronNames::Numbers => None,
        CronNames::Months => {
            if range_eq_ignore_case(v, lo, hi, "JAN") { Some(1) }
            else if range_eq_ignore_case(v, lo, hi, "FEB") { Some(2) }
            else if range_eq_ignore_case(v, lo, hi, "MAR") { Some(3) }
            else if range_eq_ignore_case(v, lo, hi, "APR") { Some(4) }
            else if range_eq_ignore_case(v, lo, hi, "MAY") { Some(5) }
            else if range_eq_ignore_case(v, lo, hi, "JUN") { Some(6) }
            else if range_eq_ignore_case(v, lo, hi, "JUL") { Some(7) }
            else if range_eq_ignore_case(v, lo, hi, "AUG") { Some(8) }
            else if range_eq_ignore_case(v, lo, hi, "SEP") { Some(9) }
            else if range_eq_ignore_case(v, lo, hi, "OCT") { Some(10) }
            else if range_eq_ignore_case(v, lo, hi, "NOV") { Some(11) }
            else if range_eq_ignore_case(v, lo, hi, "DEC") { Some(12) }
            else { None }
        },
        CronNames::Weekdays => {
            if range_eq_ignore_case(v, lo, hi, "SUN") { Some(0) }
            else if range_eq_ignore_case(v, lo, hi, "MON") { Some(1) }
            else if range_eq_ignore_case(v, lo, hi, "TUE") { Some(2) }
            else if range_eq_ignore_case(v, lo, hi, "WED") { Some(3) }
            else if range_eq_ignore_case(v, lo, hi, "THU") { Some(4) }
            else if range_eq_ignore_case(v, lo, hi, "FRI") { Some(5) }
            else if range_eq_ignore_case(v, lo, hi, "SAT") { Some(6) }
            else { None }
        },
    }
}

/// Parses a cron value: a number, or a month or weekday name the field accepts.
pub fn parse_cron_value(v: &Vec<char>, lo: usize, hi: usize, names: CronNames) -> (r: Option<u32>)
    requires
        lo <= hi <= v.len(),
    ensures
        r == cron_value(v@.subrange(lo as int, hi as int), names),
{
    reveal(cron_value);
    match parse_u32_range(v, lo, hi) {
        Some(n) => Some(n),
        None => name_number_exec(names, v, lo, hi),
    }
}

fn is_star_range(v: &Vec<char>, lo: usize, hi: usize) -> (b: bool)
    requires
        lo <= hi <= v.len(),
    ensures
        b == is_star(v@.subrange(lo as int, hi as int)),
{
    proof {
        reveal_strlit("*");
        reveal_strlit("?");
    }
    let r = hi - lo == 1 && (v[lo] == '*' || v[lo] == '?');
    proof {
        let s = v@.subrange(lo as int, hi as int);
        assert("*"@.len() == 1 && "*"@[0] == '*');
        assert("?"@.len() == 1 && "?"@[0] == '?');
        if hi - lo == 1 {
            assert(s[0] == v@[lo as int]);
            if v@[lo as int] == '*' {
                assert(s =~= "*"@);
            }
            if v@[lo as int] == '?' {
                assert(s =~= "?"@);
            }
        }
    }
    r
}

fn item_range_exec(v: &Vec<char>, blo: usize, bhi: usize, stepped: bool, min: u32, max: u32, names: CronNames) -> (r: Option<(u32, u32)>)
    requires
        blo <= bhi <= v.len(),
    ensures
        r == item_range(v@.subrange(blo as int, bhi as int), stepped, min, max, names),
{
    let ghost base = v@.subrange(blo as int, bhi as int);
    if is_star_range(v, blo, bhi) {
        Some((min, max))
    } else {
        match find_char(v, blo, bhi, '-') {
            Some(d) => {
                proof {
                    assert(base.take(d - blo) =~= v@.subrange(blo as int, d as int));
                    assert(base.skip(d - blo + 1) =~= v@.subrange(d + 1, bhi as int));
                    assert(split_once(base, '-') == Some((base.take(d - blo), base.skip(d - blo + 1))));
                }
                match (parse_cron_value(v, blo, d, names), parse_cron_value(v, d + 1, bhi, names)) {
                    (Some(s), Some(e)) => if s > e || s < min || e > max { None } else { Some((s, e)) },
                    _ => None,
                }
            },
            None => match parse_cron_value(v, blo, bhi, names) {
                Some(s) => if s < min || s > max {
                    None
                } else {
                    Some((s, if stepped { max } else { s }))
                },
                None => None,
            },
        }
    }
}

/// Whether one item `v[lo..hi]` of a cron field admits `value`.
#[verifier::rlimit(60)]
pub fn cron_item_matches(v: &Vec<char>, lo: usize, hi: usize, value: u32, min: u32, max: u32, names: CronNames) -> (b: bool)
    requires
        lo <= hi <= v.len(),
    ensures
        b == cron_item(v@.subrange(lo as int, hi as int), value, min, max, names),
{
    let ghost item = v@.subrange(lo as int, hi as int);
    if lo == hi {
        return false;
    }
    if is_star_range(v, lo, hi) {
        return true;
    }
    let (blo, bhi, step) = match find_char(v, lo, hi, '/') {
        Some(e) => {
            proof {
                assert(item.take(e - lo) =~= v@.subrange(lo as int, e as int));
                assert(item.skip(e - lo + 1) =~= v@.subrange(e + 1, hi as int));
                assert(split_once(item, '/') == Some((item.take(e - lo), item.skip(e - lo + 1))));
            }
            match parse_u32_range(v, e + 1, hi) {
                Some(n) => if n > 0 {
                    (lo, e, Some(n))
                } else {
                    return false;
                },
                None => return false,
            }
        },
        None => (lo, hi, None),
    };
    assert(item_step(item) == Some((v@.subrange(blo as int, bhi as int), step)));
    let range = item_range_exec(v, blo, bhi, step.is_some(), min, max, names);
    match range {
        None => false,
        Some((s, e)) => {
            if value < s || value > e {
                return false;
            }
            match step {
                Some(k) => (value - s) % k == 0,
                None => true,
            }
        },
    }
}

/// Whether some item of the comma-separated field `v[lo..hi]` admits `value`.
pub fn field_matches(v: &Vec<char>, lo: usize, hi: usize, value: u32, min: u32, max: u32, names: CronNames) -> (b: bool)
    requires
        lo <= hi <= v.len(),
    ensures
        b == cron_field(v@.subrange(lo as int, hi as int), value, min, max, names),
{
    let rs = split_ranges(v, lo, hi, ',');
    let ghost items = split_char(v@.subrange(lo as int, hi as int), ',');
    let mut k: usize = 0;
    while k < rs.len()
        invariant
            ranges_within(rs@, lo as int, hi as int),
            hi <= v.len(),
            items == split_char(v@.subrange(lo as int, hi as int), ','),
            ranges_view(v@, rs@) == items,
            k <= rs.len(),
            forall|j: int| 0 <= j < k ==> !cron_item(trim(#[trigger] items[j]), value, min, max, names),
        decreases rs.len() - k,
    {
        let (a, b) = rs[k];
        assert(lo <= rs@[k as int].0 <= rs@[k as int].1 <= hi);
        let (tlo, thi) = trim_range(v, a, b);
        assert(items[k as int] == v@.subrange(a as int, b as int));
        assert(trim(items[k as int]) == v@.subrange(tlo as int, thi as int));
        if cron_item_matches(v, tlo, thi, value, min, max, names) {
            assert(cron_item(trim(items[k as int]), value, min, max, names));
            assert(0 <= k < items.len());
            assert(cron_field(v@.subrange(lo as int, hi as int), value, min, max, names));
            return true;
        }
        k = k + 1;
    }
    false
}

/// Whether the item `v[lo..hi]` is `*` or `?`, with no step above 1.
fn star_item_exec(v: &Vec<char>, lo: usize, hi: usize) -> (b: bool)
    requires
        lo <= hi <= v.len(),
    ensures
        b == star_item(v@.subrange(lo as int, hi as int)),
{
    let (tlo, thi) = trim_range(v, lo, hi);
    let ghost t = v@.subrange(tlo as int, thi as int);
    assert(trim(v@.subrange(lo as int, hi as int)) == t);
    match find_char(v, tlo, thi, '/') {
        Some(e) => {
            proof {
                assert(t.take(e - tlo) =~= v@.subrange(tlo as int, e as int));
                assert(t.skip(e - tlo + 1) =~= v@.subrange(e + 1, thi as int));
                assert(split_once(t, '/') == Some((t.take(e - tlo), t.skip(e - tlo + 1))));
            }
            is_star_range(v, tlo, e) && match parse_u32_range(v, e + 1, thi) {
                Some(n) => n <= 1,
                None => false,
            }
        },
        None => is_star_range(v, tlo, thi),
    }
}

/// Whether the field `v[lo..hi]` has an item that is `*` or `?` with no step
/// above 1.
pub fn field_has_star_bit(v: &Vec<char>, lo: usize, hi: usize) -> (b: bool)
    requires
        lo <= hi <= v.len(),
    ensures
        b == has_star_item(v@.subrange(lo as int, hi as int)),
{
    let rs = split_ranges(v, lo, hi, ',');
    let ghost items = split_char(v@.subrange(lo as int, hi as int), ',');
    let mut k: usize = 0;
    while k < rs.len()
        invariant
            ranges_within(rs@, lo as int, hi as int),
            hi <= v.len(),
            items == split_char(v@.subrange(lo as int, hi as int), ','),
            ranges_view(v@, rs@) == items,
            k <= rs.len(),
            forall|j: int| 0 <= j < k ==> !star_item(#[trigger] items[j]),
        decreases rs.len() - k,
    {
        let (a, b) = rs[k];
        assert(lo <= rs@[k as int].0 <= rs@[k as int].1 <= hi);
        assert(items[k as int] == v@.subrange(a as int, b as int));
        if star_item_exec(v, a, b) {
            assert(star_item(items[k as int]));
            assert(0 <= k < items.len());
            assert(has_star_item(v@.subrange(lo as int, hi as int)));
            return true;
        }
        k = k + 1;
    }
    false
}

/// Whether a five-field cron expression matches the minute.
pub fn standard_cron_matches(expression: &str, m: &CronMoment) -> (b: bool)
    ensures
        b == standard_cron(expression@, *m),
{
    let v = chars_of(expression);
    let rs = word_ranges(&v, 0, v.len());
    proof {
        assert(v@.subrange(0, v.len() as int) =~= v@);
    }
    if rs.len() != 5 {
        return false;
    }
    let ghost parts = words(v@);
    let (a0, b0) = rs[0];
    let (a1, b1) = rs[1];
    let (a2, b2) = rs[2];
    let (a3, b3) = rs[3];
    let (a4, b4) = rs[4];
    assert(0 <= rs@[0].0 <= rs@[0].1 <= v.len());
    assert(0 <= rs@[1].0 <= rs@[1].1 <= v.len());
    assert(0 <= rs@[2].0 <= rs@[2].1 <= v.len());
    assert(0 <= rs@[3].0 <= rs@[3].1 <= v.len());
    assert(0 <= rs@[4].0 <= rs@[4].1 <= v.len());
    assert(parts[0] == v@.subrange(a0 as int, b0 as int));
    assert(parts[1] == v@.subrange(a1 as int, b1 as int));
    assert(parts[2] == v@.subrange(a2 as int, b2 as int));
    assert(parts[3] == v@.subrange(a3 as int, b3 as int));
    assert(parts[4] == v@.subrange(a4 as int, b4 as int));
    let dom = field_matches(&v, a2, b2, m.day, 1, 31, CronNames::Numbers);
    let dow = field_matches(&v, a4, b4, m.day_of_week, 0, 6, CronNames::Weekdays);
    let day = if field_has_star_bit(&v, a2, b2) || field_has_star_bit(&v, a4, b4) {
        dom && dow
    } else {
        dom || dow
    };
    field_matches(&v, a0, b0, m.minute, 0, 59, CronNames::Numbers) && field_matches(&v, a1, b1, m.hour, 0, 23, CronNames::Numbers)
        && field_matches(&v, a3, b3, m.month, 1, 12, CronNames::Months) && day
}

/// Whether a predefined schedule such as `@daily` matches the minute.
pub fn descriptor_matches(expression: &str, m: &CronMoment) -> (b: bool)
    ensures
        b == descriptor(expression@, *m),
{
    let e = chars_of(expression);
    if chars_eq(&e, &chars_of("@yearly")) || chars_eq(&e, &chars_of("@annually")) {
        m.month == 1 && m.day == 1 && m.hour == 0 && m.minute == 0
    } else if chars_eq(&e, &chars_of("@monthly")) {
        m.day == 1 && m.hour == 0 && m.minute == 0
    } else if chars_eq(&e, &chars_of("@weekly")) {
        m.day_of_week == 0 && m.hour == 0 && m.minute == 0
    } else if chars_eq(&e, &chars_of("@daily")) || chars_eq(&e, &chars_of("@midnight")) {
        m.hour == 0 && m.minute == 0
    } else if chars_eq(&e, &chars_of("@hourly")) {
        m.minute == 0
    } else {
        false
    }
}

/// Whether a cron expression (without time-zone prefix) is due at the minute.
pub fn cron_matches(expression: &str, m: &CronMoment) -> (b: bool)
    ensures
        b == (descriptor(expression@, *m) || standard_cron(expression@, *m)),
{
    descriptor_matches(expression, m) || standard_cron_matches(expression, m)
}

/// Tasks already run, by task id and due minute.
pub struct RuntimeState {
    executed_buckets: Vec<(i64, String)>,
}

impl RuntimeState {
    /// The task runs recorded so far.
    pub closed spec fn runs(&self) -> Seq<(i64, Seq<char>)> {
        Seq::new(self.executed_buckets@.len(), |i: int| (self.executed_buckets@[i].0, self.executed_buckets@[i].1@))
    }

    pub fn new() -> (s: Self)
        ensures
            s.runs() == Seq::<(i64, Seq<char>)>::empty(),
    {
        let s = RuntimeState { executed_buckets: Vec::new() };
        assert(s.runs() =~= Seq::<(i64, Seq<char>)>::empty());
        s
    }

    /// Records that `task_id` runs for `bucket`; `false` when it already ran
    /// for that bucket, which is then left as it was.
    pub fn claim(&mut self, task_id: i64, bucket: &str) -> (fresh: bool)
        ensures
            fresh == !old(self).runs().contains((task_id, bucket@)),
            fresh ==> final(self).runs() == old(self).runs().push((task_id, bucket@)),
            !fresh ==> final(self).runs() == old(self).runs(),
    {
        let b = chars_of(bucket);
        let mut i: usize = 0;
        while i < self.executed_buckets.len()
            invariant
                i <= self.executed_buckets.len(),
                b@ == bucket@,
                forall|j: int| 0 <= j < i ==> #[trigger] self.runs()[j] != (task_id, bucket@),
            decreases self.executed_buckets.len() - i,
        {
            if self.executed_buckets[i].0 == task_id && chars_eq(&chars_of(self.executed_buckets[i].1.as_str()), &b) {
                assert(self.runs()[i as int] == (task_id, bucket@));
                return false;
            }
            i = i + 1;
        }
        let ghost before = self.runs();
        self.executed_buckets.push((task_id, bucket.to_string()));
        assert(self.runs() =~= before.push((task_id, bucket@)));
        true
    }
}

/// A task runs at most once per minute bucket: once a claim succeeded, the
/// run is recorded and claiming it again fails, and recorded runs stay
/// distinct.
pub proof fn lemma_claim_once(runs: Seq<(i64, Seq<char>)>, task_id: i64, bucket: Seq<char>)
    requires
        forall|i: int, j: int| 0 <= i < j < runs.len() ==> runs[i] != runs[j],
        !runs.contains((task_id, bucket)),
    ensures
        runs.push((task_id, bucket)).contains((task_id, bucket)),
        forall|i: int, j: int| 0 <= i < j < runs.len() + 1 ==>
            runs.push((task_id, bucket))[i] != runs.push((task_id, bucket))[j],
{
    let r = runs.push((task_id, bucket));
    assert(r[runs.len() as int] == (task_id, bucket));
    assert forall|i: int, j: int| 0 <= i < j < runs.len() + 1 implies r[i] != r[j] by {
        if j == runs.len() {
            assert(r[i] == runs[i]);
        }
    }
}

/// The shard a scheduled task addresses: its uuid, else its level name, else
/// `Master`.
pub open spec fn task_level_spec(uuid: Seq<char>, level_name: Seq<char>) -> Seq<char> {
    if trim(uuid).len() > 0 {
        uuid
    } else if trim(level_name).len() > 0 {
        level_name
    } else {
        "Master"@
    }
}

pub fn task_level(uuid: &str, level_name: &str) -> (s: String)
    ensures
        s@ == task_level_spec(uuid@, level_name@),
{
    let u = chars_of(uuid);
    let (a, b) = trim_range(&u, 0, u.len());
    assert(u@.subrange(0, u.len() as int) =~= u@);
    if a < b {
        return uuid.to_string();
    }
    let l = chars_of(level_name);
    let (c, d) = trim_range(&l, 0, l.len());
    assert(l@.subrange(0, l.len() as int) =~= l@);
    if c < d {
        return level_name.to_string();
    }
    "Master".to_string()
}

/// The cluster a scheduled task runs in: its own when set, else the
/// configured one; it must be a safe argv value.
pub fn scheduled_cluster_name(task_cluster: &str, config_cluster: &str) -> (r: Result<String, ValidationError>)
    ensures
        ({
            let name = if trim(task_cluster@).len() > 0 { task_cluster@ } else { config_cluster@ };
            match command_arg_problem(name) {
                None => r matches Ok(s) && s@ == name,
                Some(reason) => r matches Err(e) && e.field == "cluster name" && e.reason == reason,
            }
        }),
{
    let t = chars_of(task_cluster);
    let (a, b) = trim_range(&t, 0, t.len());
    assert(t@.subrange(0, t.len() as int) =~= t@);
    let name = if a < b { task_cluster } else { config_cluster };
    let arg = validate_safe_command_arg("cluster name", name)?;
    Ok(arg.into_string())
}

/// What a scheduled task does, by its category.
#[derive(Debug, Clone, Copy, PartialEq, Eq)]
pub enum TaskAction {
    Backup,
    Update,
    Start,
    Stop,
    Restart,
    Regenerate,
    StartGame,
    StopGame,
    Nothing,
    Unknown,
}

pub open spec fn task_action_spec(category: Seq<char>) -> TaskAction {
    if category == "backup"@ { TaskAction::Backup }
    else if category == "update"@ { TaskAction::Update }
    else if category == "start"@ { TaskAction::Start }
    else if category == "stop"@ { TaskAction::Stop }
    else if category == "restart"@ { TaskAction::Restart }
    else if category == "regenerate"@ { TaskAction::Regenerate }
    else if category == "startGame"@ { TaskAction::StartGame }
    else if category == "stopGame"@ { TaskAction::StopGame }
    else if category == "none"@ || category.len() == 0 { TaskAction::Nothing }
    else { TaskAction::Unknown }
}

/// The category name of each task action that has one.
pub open spec fn task_action_name(a: TaskAction) -> Seq<char> {
    match a {
        TaskAction::Backup => "backup"@,
        TaskAction::Update => "update"@,
        TaskAction::Start => "start"@,
        TaskAction::Stop => "stop"@,
        TaskAction::Restart => "restart"@,
        TaskAction::Regenerate => "regenerate"@,
        TaskAction::StartGame => "startGame"@,
        TaskAction::StopGame => "stopGame"@,
        TaskAction::Nothing => "none"@,
        TaskAction::Unknown => Seq::empty(),
    }
}

/// A category selects the action of the same name: each action is what its
/// own name selects, and a category that selects an action other than
/// doing nothing is that action's name. `none` and the empty category do
/// nothing.
pub proof fn lemma_task_action_by_name(a: TaskAction, category: Seq<char>)
    ensures
        a != TaskAction::Unknown ==> task_action_spec(task_action_name(a)) == a,
        task_action_spec(category) != TaskAction::Unknown && task_action_spec(category) != TaskAction::Nothing
            ==> category == task_action_name(task_action_spec(category)),
        task_action_spec(category) == TaskAction::Nothing <==> (category == "none"@ || category.len() == 0),
{
    reveal_strlit("backup");
    reveal_strlit("update");
    reveal_strlit("start");
    reveal_strlit("stop");
    reveal_strlit("restart");
    reveal_strlit("regenerate");
    reveal_strlit("startGame");
    reveal_strlit("stopGame");
    reveal_strlit("none");
    assert("backup"@[0] != "update"@[0]);
    assert("stop"@[1] != "none"@[1]);
    assert("backup"@.len() == 6 && "update"@.len() == 6 && "start"@.len() == 5 && "stop"@.len() == 4);
    assert("restart"@.len() == 7 && "regenerate"@.len() == 10 && "startGame"@.len() == 9);
    assert("stopGame"@.len() == 8 && "none"@.len() == 4);
    assert("backup"@ != "update"@);
    assert("stop"@ != "none"@);
}

/// What a task of `category` does.
pub fn task_action(category: &str) -> (a: TaskAction)
    ensures
        a == task_action_spec(category@),
{
    let c = chars_of(category);
    if chars_eq(&c, &chars_of("backup")) { TaskAction::Backup }
    else if chars_eq(&c, &chars_of("update")) { TaskAction::Update }
    else if chars_eq(&c, &chars_of("start")) { TaskAction::Start }
    else if chars_eq(&c, &chars_of("stop")) { TaskAction::Stop }
    else if chars_eq(&c, &chars_of("restart")) { TaskAction::Restart }
    else if chars_eq(&c, &chars_of("regenerate")) { TaskAction::Regenerate }
    else if chars_eq(&c, &chars_of("startGame")) { TaskAction::StartGame }
    else if chars_eq(&c, &chars_of("stopGame")) { TaskAction::StopGame }
    else if chars_eq(&c, &chars_of("none")) || c.len() == 0 { TaskAction::Nothing }
    else { TaskAction::Unknown }
}

/// The non-empty lines of an announcement, each broadcast in turn.
pub fn announcement_lines(announcement: &str) -> (ls: Vec<String>)
    ensures
        crate::process::string_views(ls@) == nonempty_lines(lines(announcement@)),
{
    let v = chars_of(announcement);
    let rs = line_ranges(&v);
    let ghost all = lines(v@);
    let mut out: Vec<String> = Vec::new();
    let mut k: usize = 0;
    while k < rs.len()
        invariant
            v@ == announcement@,
            all == lines(v@),
            ranges_within(rs@, 0, v.len() as int),
            ranges_view(v@, rs@) == all,
            k <= rs.len(),
            crate::process::string_views(out@) == nonempty_lines(all.take(k as int)),
        decreases rs.len() - k,
    {
        let (lo, hi) = rs[k];
        assert(0 <= rs@[k as int].0 <= rs@[k as int].1 <= v.len());
        proof {
            assert(all.take(k + 1).drop_last() =~= all.take(k as int));
            assert(all.take(k + 1).last() == v@.subrange(lo as int, hi as int));
        }
        if lo < hi {
            let ghost before = out@;
            out.push(string_from_range(&v, lo, hi));
            assert(crate::process::string_views(out@) =~= crate::process::string_views(before).push(v@.subrange(lo as int, hi as int)));
        }
        k = k + 1;
    }
    assert(all.take(rs.len() as int) =~= all);
    out
}

pub open spec fn nonempty_lines(ls: Seq<Seq<char>>) -> Seq<Seq<char>>
    decreases ls.len(),
{
    if ls.len() == 0 {
        Seq::empty()
    } else if ls.last().len() > 0 {
        nonempty_lines(ls.drop_last()).push(ls.last())
    } else {
        nonempty_lines(ls.drop_last())
    }
}


/// Whether the IANA time-zone database compiled into `chrono_tz` has a zone
/// of exactly this name.
pub uninterp spec fn tz_known(name: Seq<char>) -> bool;

/// Asks `chrono_tz` whether `name` is one of its zone names: `Tz::from_str`
/// looks the exact text up in its compiled table, so the answer depends on
/// the name alone.
#[verifier::external_body]
fn tz_name_known(name: &str) -> (b: bool)
    ensures
        b == tz_known(name@),
{
    name.parse::<Tz>().is_ok()
}

/// The time zone a cron expression is evaluated in.
#[derive(PartialEq, Eq, Structural)]
pub enum CronZoneKind {
    /// The machine's local time.
    Local,
    /// Coordinated universal time.
    Utc,
    /// A zone of the time-zone database, by name.
    Named,
}

/// A cron expression without its zone prefix, and the zone it is read in.
pub struct ParsedCronExpression {
    pub expression: String,
    pub zone: CronZoneKind,
    /// The zone's name for `Named`, else empty.
    pub zone_name: String,
}

/// Index of the first whitespace character.
pub open spec fn ws_index(s: Seq<char>) -> Option<int>
    decreases s.len(),
{
    if s.len() == 0 {
        None
    } else if is_ws(s[0]) {
        Some(0)
    } else {
        match ws_index(s.drop_first()) {
            Some(i) => Some(i + 1),
            None => None,
        }
    }
}

/// The zone a `CRON_TZ=` or `TZ=` prefix names, if it is one.
pub open spec fn zone_of(name: Seq<char>) -> Option<CronZoneKind> {
    if name == "Local"@ {
        Some(CronZoneKind::Local)
    } else if name == "UTC"@ || name == "GMT"@ || name == "Etc/UTC"@ {
        Some(CronZoneKind::Utc)
    } else if tz_known(name) {
        Some(CronZoneKind::Named)
    } else {
        None
    }
}

/// A zone-prefixed expression: the zone name up to the first whitespace,
/// then the trimmed, non-empty rest.
pub open spec fn prefixed_cron(rest: Seq<char>) -> Option<(Seq<char>, CronZoneKind, Seq<char>)> {
    match ws_index(rest) {
        None => None,
        Some(i) => {
            let zone = rest.take(i);
            let cron = trim(rest.skip(i + 1));
            if cron.len() == 0 {
                None
            } else {
                match zone_of(zone) {
                    Some(k) => Some((cron, k, if k == CronZoneKind::Named { zone } else { Seq::<char>::empty() })),
                    None => None,
                }
            }
        },
    }
}

/// A cron expression with an optional `CRON_TZ=zone ` or `TZ=zone ` prefix:
/// the expression, its zone, and the zone's name when it is a named one.
pub open spec fn parsed_cron(e: Seq<char>) -> Option<(Seq<char>, CronZoneKind, Seq<char>)> {
    if starts_with(e, "CRON_TZ="@) {
        prefixed_cron(e.skip(8))
    } else if starts_with(e, "TZ="@) {
        prefixed_cron(e.skip(3))
    } else {
        Some((e, CronZoneKind::Local, Seq::<char>::empty()))
    }
}

/// Index of the first whitespace in `v[from..]`.
fn ws_index_exec(v: &Vec<char>, from: usize) -> (r: Option<usize>)
    requires
        from <= v.len(),
    ensures
        match r {
            Some(i) => from <= i < v.len() && ws_index(v@.skip(from as int)) == Some(i - from),
            None => ws_index(v@.skip(from as int)) is None,
        },
{
    let ghost s = v@.skip(from as int);
    let mut i = from;
    assert(s.skip(0) =~= s);
    while i < v.len()
        invariant
            from <= i <= v.len(),
            s == v@.skip(from as int),
            ws_index(s) == match ws_index(s.skip(i - from)) {
                Some(j) => Some(j + (i - from)),
                None => None::<int>,
            },
        decreases v.len() - i,
    {
        assert(s.skip(i - from)[0] == v@[i as int]);
        assert(s.skip(i - from).drop_first() =~= s.skip(i - from + 1));
        if is_whitespace(v[i]) {
            return Some(i);
        }
        i = i + 1;
    }
    assert(s.skip(i - from).len() == 0);
    None
}

fn zone_of_exec(name: &Vec<char>) -> (r: Option<CronZoneKind>)
    ensures
        r == zone_of(name@),
{
    let local = chars_of("Local");
    let utc = chars_of("UTC");
    let gmt = chars_of("GMT");
    let etc = chars_of("Etc/UTC");
    if chars_eq(name, &local) {
        Some(CronZoneKind::Local)
    } else if chars_eq(name, &utc) || chars_eq(name, &gmt) || chars_eq(name, &etc) {
        Some(CronZoneKind::Utc)
    } else if tz_name_known(string_from_chars(name).as_str()) {
        Some(CronZoneKind::Named)
    } else {
        None
    }
}

fn prefixed_cron_exec(v: &Vec<char>, from: usize) -> (r: Option<ParsedCronExpression>)
    requires
        from <= v.len(),
    ensures
        match r {
            Some(p) => prefixed_cron(v@.skip(from as int)) == Some((p.expression@, p.zone, p.zone_name@)),
            None => prefixed_cron(v@.skip(from as int)) is None,
        },
{
    let ghost rest = v@.skip(from as int);
    let i = match ws_index_exec(v, from) {
        Some(i) => i,
        None => return None,
    };
    let zone = sub_chars(v, from, i);
    assert(zone@ =~= rest.take(i - from));
    let (a, b) = trim_range(v, i + 1, v.len());
    assert(v@.subrange(i + 1, v.len() as int) =~= rest.skip(i - from + 1));
    if a == b {
        return None;
    }
    let cron = string_from_range(v, a, b);
    match zone_of_exec(&zone) {
        Some(k) => {
            let name = if k == CronZoneKind::Named { string_from_chars(&zone) } else { String::new() };
            Some(ParsedCronExpression { expression: cron, zone: k, zone_name: name })
        },
        None => None,
    }
}

/// Splits an optional `CRON_TZ=zone ` or `TZ=zone ` prefix off a cron
/// expression. `None` when the prefix has no expression after it or names
/// no zone.
pub fn parse_cron_expression(expression: &str) -> (r: Option<ParsedCronExpression>)
    ensures
        match r {
            Some(p) => parsed_cron(expression@) == Some((p.expression@, p.zone, p.zone_name@)),
            None => parsed_cron(expression@) is None,
        },
{
    let v = chars_of(expression);
    let long = chars_of("CRON_TZ=");
    let short = chars_of("TZ=");
    proof {
        reveal_strlit("CRON_TZ=");
        reveal_strlit("TZ=");
    }
    if starts_with_exec(&v, &long) {
        prefixed_cron_exec(&v, 8)
    } else if starts_with_exec(&v, &short) {
        prefixed_cron_exec(&v, 3)
    } else {
        Some(ParsedCronExpression { expression: expression.to_string(), zone: CronZoneKind::Local, zone_name: String::new() })
    }
}

/// Length of the number at the start of a Go duration: digits with at most
/// one dot, and at least one digit; zero when there is none.
pub open spec fn duration_number_len(s: Seq<char>) -> int {
    let k = number_run(s, 0, false);
    if exists|j: int| 0 <= j < k && is_ascii_digit(#[trigger] s[j]) { k } else { 0 }
}

/// How far digits and a first dot run from index `i`.
pub open spec fn number_run(s: Seq<char>, i: int, seen_dot: bool) -> int
    decreases s.len() - i,
{
    if i < 0 || i >= s.len() {
        i
    } else if is_ascii_digit(s[i]) {
        number_run(s, i + 1, seen_dot)
    } else if s[i] == '.' && !seen_dot {
        number_run(s, i + 1, true)
    } else {
        i
    }
}

/// The length, in characters, of the number that starts a Go duration.
pub fn duration_number_prefix_len(v: &Vec<char>, from: usize) -> (n: usize)
    requires
        from <= v.len(),
    ensures
        n == duration_number_len(v@.skip(from as int)),
{
    let ghost s = v@.skip(from as int);
    let mut i: usize = from;
    let mut seen_dot = false;
    let mut seen_digit = false;
    let mut going = true;
    while going && i < v.len()
        invariant
            from <= i <= v.len(),
            s == v@.skip(from as int),
            going ==> number_run(s, 0, false) == number_run(s, i - from, seen_dot),
            !going ==> number_run(s, 0, false) == i - from,
            seen_digit == exists|j: int| 0 <= j < i - from && is_ascii_digit(#[trigger] s[j]),
        decreases v.len() - i, if going { 1int } else { 0int },
    {
        let c = v[i];
        assert(s[i - from] == c);
        if '0' <= c && c <= '9' {
            seen_digit = true;
            i = i + 1;
        } else if c == '.' && !seen_dot {
            seen_dot = true;
            i = i + 1;
        } else {
            going = false;
        }
    }
    if seen_digit { i - from } else { 0 }
}
/// How many times a task's announcement is broadcast before its action:
/// `times` rounds when there is text and `times` is positive, none
/// otherwise.
pub open spec fn announcement_rounds_spec(announcement: Seq<char>, times: i64) -> nat {
    if announcement.len() == 0 || times <= 0 {
        0
    } else {
        times as nat
    }
}

pub fn announcement_rounds(announcement: &str, times: i64) -> (n: u64)
    ensures
        n == announcement_rounds_spec(announcement@, times),
{
    if announcement.is_empty() || times <= 0 {
        0
    } else {
        times as u64
    }
}

/// The pause in seconds after round `repeat` (counted from zero) of `times`
/// rounds: `sleep` seconds between rounds when positive, none after the last.
pub open spec fn pause_after_round_spec(repeat: u64, times: i64, sleep: i64) -> Option<u64> {
    if repeat + 1 < times && sleep > 0 {
        Some(sleep as u64)
    } else {
        None
    }
}

pub fn pause_after_round(repeat: u64, times: i64, sleep: i64) -> (p: Option<u64>)
    ensures
        p == pause_after_round_spec(repeat, times, sleep),
{
    if times > 0 && repeat < (times as u64) - 1 && sleep > 0 {
        Some(sleep as u64)
    } else {
        None
    }
}

} // verus!
