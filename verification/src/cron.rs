//! Cron expressions: parsing of the five-field syntax (`*`, values, ranges,
//! steps and lists) into the sorted sets of allowed values.
use vstd::prelude::*;
use vstd::arithmetic::div_mod::lemma_fundamental_div_mod_converse;

use crate::text::{
    chars_of, contains_char, has_prefix, parse_u8, parse_unsigned, slice_range, split_char,
    split_on_char, split_whitespace, starts_with, trim, trim_chars, words,
};

verus! {

// ---------------------------------------------------------------------------
// Errors
// ---------------------------------------------------------------------------

/// Why a schedule or cron expression was rejected.
#[derive(Debug, Clone, PartialEq, Eq)]
pub enum ScheduleError {
    /// A cron expression must have exactly five fields.
    FieldCount { got: usize, expr: String },
    /// The text after `*/` is not a number from 0 to 255.
    InvalidStep { part: String },
    /// A step of zero.
    ZeroStep,
    /// A range does not have exactly one `-`.
    InvalidRange { part: String },
    /// The start of a range is not a number from 0 to 255.
    InvalidRangeStart { text: String },
    /// The end of a range is not a number from 0 to 255.
    InvalidRangeEnd { text: String },
    /// A range is reversed or leaves the field's bounds.
    RangeOutOfBounds { start: u8, end: u8, min: u8, max: u8 },
    /// A single value is not a number from 0 to 255.
    InvalidValue { part: String },
    /// A single value lies outside the field's bounds.
    ValueOutOfRange { value: u8, min: u8, max: u8 },
    /// The schedule is neither an alias, an interval nor a cron expression.
    Unparseable { schedule: String },
}

/// A [`ScheduleError`] with its texts as character sequences.
pub enum ScheduleErrorView {
    FieldCount { got: usize, expr: Seq<char> },
    InvalidStep { part: Seq<char> },
    ZeroStep,
    InvalidRange { part: Seq<char> },
    InvalidRangeStart { text: Seq<char> },
    InvalidRangeEnd { text: Seq<char> },
    RangeOutOfBounds { start: u8, end: u8, min: u8, max: u8 },
    InvalidValue { part: Seq<char> },
    ValueOutOfRange { value: u8, min: u8, max: u8 },
    Unparseable { schedule: Seq<char> },
}

impl View for ScheduleError {
    type V = ScheduleErrorView;

    open spec fn view(&self) -> ScheduleErrorView {
        match self {
            ScheduleError::FieldCount { got, expr } => ScheduleErrorView::FieldCount {
                got: *got,
                expr: expr@,
            },
            ScheduleError::InvalidStep { part } => ScheduleErrorView::InvalidStep { part: part@ },
            ScheduleError::ZeroStep => ScheduleErrorView::ZeroStep,
            ScheduleError::InvalidRange { part } => ScheduleErrorView::InvalidRange { part: part@ },
            ScheduleError::InvalidRangeStart { text } => ScheduleErrorView::InvalidRangeStart {
                text: text@,
            },
            ScheduleError::InvalidRangeEnd { text } => ScheduleErrorView::InvalidRangeEnd {
                text: text@,
            },
            ScheduleError::RangeOutOfBounds { start, end, min, max } =>
                ScheduleErrorView::RangeOutOfBounds {
                start: *start,
                end: *end,
                min: *min,
                max: *max,
            },
            ScheduleError::InvalidValue { part } => ScheduleErrorView::InvalidValue { part: part@ },
            ScheduleError::ValueOutOfRange { value, min, max } =>
                ScheduleErrorView::ValueOutOfRange { value: *value, min: *min, max: *max },
            ScheduleError::Unparseable { schedule } => ScheduleErrorView::Unparseable {
                schedule: schedule@,
            },
        }
    }
}

// ---------------------------------------------------------------------------
// Specification of a cron field
// ---------------------------------------------------------------------------

/// The values `lo, lo + k, lo + 2k, ...` that do not exceed `hi`.
pub open spec fn step_set(lo: int, hi: int, k: int) -> Set<int> {
    Set::new(|x: int| lo <= x <= hi && (x - lo) % k == 0)
}

/// The values from `lo` to `hi` inclusive.
pub open spec fn range_set(lo: int, hi: int) -> Set<int> {
    Set::new(|x: int| lo <= x <= hi)
}

/// What one comma-separated part of a cron field (already trimmed) stands for:
/// `Ok(None)` for `*` (every value of the field), `Ok(Some(values))`, or the error.
pub open spec fn part_outcome(p: Seq<char>, min: int, max: int) -> Result<
    Option<Set<int>>,
    ScheduleErrorView,
> {
    if p == seq!['*'] {
        Ok(None)
    } else if has_prefix(p, seq!['*', '/']) {
        match parse_unsigned(p.skip(2), 255) {
            None => Err(ScheduleErrorView::InvalidStep { part: p }),
            Some(k) => if k == 0 {
                Err(ScheduleErrorView::ZeroStep)
            } else {
                Ok(Some(step_set(min, max, k as int)))
            },
        }
    } else if p.contains('-') {
        let pieces = split_char(p, '-');
        if pieces.len() != 2 {
            Err(ScheduleErrorView::InvalidRange { part: p })
        } else {
            match parse_unsigned(pieces[0], 255) {
                None => Err(ScheduleErrorView::InvalidRangeStart { text: pieces[0] }),
                Some(a) => match parse_unsigned(pieces[1], 255) {
                    None => Err(ScheduleErrorView::InvalidRangeEnd { text: pieces[1] }),
                    Some(b) => if a > b || a < min || b > max {
                        Err(
                            ScheduleErrorView::RangeOutOfBounds {
                                start: a as u8,
                                end: b as u8,
                                min: min as u8,
                                max: max as u8,
                            },
                        )
                    } else {
                        Ok(Some(range_set(a as int, b as int)))
                    },
                },
            }
        }
    } else {
        match parse_unsigned(p, 255) {
            None => Err(ScheduleErrorView::InvalidValue { part: p }),
            Some(v) => if v < min || v > max {
                Err(
                    ScheduleErrorView::ValueOutOfRange {
                        value: v as u8,
                        min: min as u8,
                        max: max as u8,
                    },
                )
            } else {
                Ok(Some(set![v as int]))
            },
        }
    }
}

/// Add the values of `r` to `acc`, or pass on its error.
pub open spec fn lift_union(acc: Set<int>, r: Result<Set<int>, ScheduleErrorView>) -> Result<
    Set<int>,
    ScheduleErrorView,
> {
    match r {
        Ok(s) => Ok(acc.union(s)),
        Err(e) => Err(e),
    }
}

/// The values allowed by the comma-separated parts `parts`, read left to right:
/// the first failing part decides the error, and a `*` part stops reading
/// with the whole range.
pub open spec fn field_outcome(parts: Seq<Seq<char>>, min: int, max: int) -> Result<
    Set<int>,
    ScheduleErrorView,
>
    decreases parts.len(),
{
    if parts.len() == 0 {
        Ok(Set::empty())
    } else {
        match part_outcome(trim(parts[0]), min, max) {
            Err(e) => Err(e),
            Ok(None) => Ok(range_set(min, max)),
            Ok(Some(s)) => lift_union(s, field_outcome(parts.drop_first(), min, max)),
        }
    }
}

/// What parsing the cron field `field` with bounds `min..=max` gives.
pub open spec fn cron_field_spec(field: Seq<char>, min: int, max: int) -> Result<
    Set<int>,
    ScheduleErrorView,
> {
    field_outcome(split_char(field, ','), min, max)
}

/// `v` lists the set `s` in strictly increasing order.
pub open spec fn lists_set(v: Seq<u8>, s: Set<int>) -> bool {
    &&& forall|i: int, j: int| 0 <= i < j < v.len() ==> v[i] < v[j]
    &&& forall|i: int| 0 <= i < v.len() ==> s.contains(v[i] as int)
    &&& forall|x: int| s.contains(x) ==> exists|i: int| 0 <= i < v.len() && v[i] as int == x
}

// ---------------------------------------------------------------------------
// Parsing a cron field
// ---------------------------------------------------------------------------

/// The values marked in a table indexed by value.
pub open spec fn marked(seen: Seq<bool>) -> Set<int> {
    Set::new(|x: int| 0 <= x < seen.len() && seen[x])
}

/// Classify one trimmed part: `Ok(None)` for `*`, `Ok(Some((lo, hi, k)))` for the
/// values `lo, lo + k, ...` up to `hi`.
fn classify_part(p: &[char], min: u8, max: u8) -> (r: Result<Option<(u8, u8, u8)>, ScheduleError>)
    requires
        min <= max,
    ensures
        match r {
            Ok(None) => part_outcome(p@, min as int, max as int) == Ok::<
                Option<Set<int>>,
                ScheduleErrorView,
            >(None),
            Ok(Some((lo, hi, k))) => {
                &&& k > 0
                &&& min <= lo
                &&& hi <= max
                &&& part_outcome(p@, min as int, max as int) == Ok::<
                    Option<Set<int>>,
                    ScheduleErrorView,
                >(Some(step_set(lo as int, hi as int, k as int)))
            },
            Err(e) => part_outcome(p@, min as int, max as int) == Err::<
                Option<Set<int>>,
                ScheduleErrorView,
            >(e@),
        },
{
    if p.len() == 1 && p[0] == '*' {
        assert(p@ =~= seq!['*']);
        return Ok(None);
    }
    assert(p@ != seq!['*']);
    let star_slash = ['*', '/'];
    assert(star_slash@ =~= seq!['*', '/']);
    if starts_with(p, &star_slash) {
        let rest = slice_range(p, 2, p.len());
        assert(rest@ =~= p@.skip(2));
        match parse_u8(&rest) {
            None => {
                return Err(ScheduleError::InvalidStep { part: crate::text::string_from_chars(p) });
            },
            Some(k) => {
                if k == 0 {
                    return Err(ScheduleError::ZeroStep);
                }
                return Ok(Some((min, max, k)));
            },
        }
    }
    if contains_char(p, '-') {
        let pieces = split_on_char(p, '-');
        let ghost pv = pieces@.map_values(|q: Vec<char>| q@);
        assert(pv.len() == pieces@.len());
        if pieces.len() != 2 {
            return Err(ScheduleError::InvalidRange { part: crate::text::string_from_chars(p) });
        }
        assert(pv[0] == pieces@[0]@);
        assert(pv[1] == pieces@[1]@);
        let a = match parse_u8(&pieces[0]) {
            None => {
                return Err(
                    ScheduleError::InvalidRangeStart {
                        text: crate::text::string_from_chars(&pieces[0]),
                    },
                );
            },
            Some(a) => a,
        };
        let b = match parse_u8(&pieces[1]) {
            None => {
                return Err(
                    ScheduleError::InvalidRangeEnd {
                        text: crate::text::string_from_chars(&pieces[1]),
                    },
                );
            },
            Some(b) => b,
        };
        if a > b || a < min || b > max {
            return Err(ScheduleError::RangeOutOfBounds { start: a, end: b, min, max });
        }
        assert(range_set(a as int, b as int) =~= step_set(a as int, b as int, 1));
        return Ok(Some((a, b, 1)));
    }
    match parse_u8(p) {
        None => Err(ScheduleError::InvalidValue { part: crate::text::string_from_chars(p) }),
        Some(v) => {
            if v < min || v > max {
                Err(ScheduleError::ValueOutOfRange { value: v, min, max })
            } else {
                assert(set![v as int] =~= step_set(v as int, v as int, 1));
                Ok(Some((v, v, 1)))
            }
        },
    }
}

/// Mark `lo, lo + k, ...` up to `hi` in `seen`.
fn mark_steps(seen: &mut Vec<bool>, lo: u8, hi: u8, k: u8)
    requires
        old(seen)@.len() == 256,
        k > 0,
        hi < 255,
    ensures
        final(seen)@.len() == 256,
        marked(final(seen)@) == marked(old(seen)@).union(step_set(lo as int, hi as int, k as int)),
{
    let mut v: u8 = lo;
    let ghost mut j: int = 0;
    while v <= hi
        invariant
            seen@.len() == 256,
            hi < 255,
            k > 0,
            lo <= v,
            v <= hi ==> v == lo + j * k,
            j >= 0,
            marked(seen@) == marked(old(seen)@).union(
                Set::new(|x: int| lo <= x < v && x <= hi && (x - lo) % (k as int) == 0),
            ),
        decreases 256 - v,
    {
        let ghost before = marked(seen@);
        seen.set(v as usize, true);
        let next = v.saturating_add(k);
        proof {
            let ghost upto_next = Set::new(
                |x: int| lo <= x < next && x <= hi && (x - lo) % (k as int) == 0,
            );
            let ghost upto_v = Set::new(
                |x: int| lo <= x < v && x <= hi && (x - lo) % (k as int) == 0,
            );
            assert forall|x: int| upto_next.contains(x) implies upto_v.contains(x) || x == v by {
                if x > v {
                    let r = x - v;
                    assert(0 < r < k);
                    assert(x - lo == j * k + r);
                    lemma_fundamental_div_mod_converse(x - lo, k as int, j, r);
                }
            }
            assert((v - lo) % (k as int) == 0) by {
                lemma_fundamental_div_mod_converse(v - lo, k as int, j, 0);
            }
            assert(marked(seen@) =~= before.insert(v as int));
            assert(marked(seen@) =~= marked(old(seen)@).union(
                Set::new(|x: int| lo <= x < next && x <= hi && (x - lo) % (k as int) == 0),
            ));
            if (v as int) + (k as int) <= 255 {
                j = j + 1;
                assert(next == lo + j * k) by (nonlinear_arith)
                    requires next == v + k, v == lo + (j - 1) * k;
            }
        }
        v = next;
    }
    proof {
        assert(marked(seen@) =~= marked(old(seen)@).union(
            step_set(lo as int, hi as int, k as int),
        ));
    }
}

/// Parse one cron field with bounds `min..=max` into its allowed values in
/// increasing order (`*`, `N`, `A-B`, `*/K`, and comma-separated lists of these).
pub fn parse_cron_field(field: &str, min: u8, max: u8) -> (r: Result<Vec<u8>, ScheduleError>)
    requires
        min <= max < 255,
    ensures
        match r {
            Ok(v) => cron_field_spec(field@, min as int, max as int) matches Ok(s) && lists_set(
                v@,
                s,
            ),
            Err(e) => cron_field_spec(field@, min as int, max as int) == Err::<
                Set<int>,
                ScheduleErrorView,
            >(e@),
        },
{
    let chars = chars_of(field);
    parse_cron_field_chars(&chars, min, max)
}

/// [`parse_cron_field`] on the characters of the field.
pub fn parse_cron_field_chars(field: &[char], min: u8, max: u8) -> (r: Result<Vec<u8>, ScheduleError>)
    requires
        min <= max < 255,
    ensures
        match r {
            Ok(v) => cron_field_spec(field@, min as int, max as int) matches Ok(s) && lists_set(
                v@,
                s,
            ),
            Err(e) => cron_field_spec(field@, min as int, max as int) == Err::<
                Set<int>,
                ScheduleErrorView,
            >(e@),
        },
{
    let parts = split_on_char(field, ',');
    let ghost pv = parts@.map_values(|q: Vec<char>| q@);
    let mut seen: Vec<bool> = Vec::new();
    let mut n: usize = 0;
    while n < 256
        invariant
            n <= 256,
            seen@.len() == n,
            forall|x: int| 0 <= x < n ==> !seen@[x],
        decreases 256 - n,
    {
        seen.push(false);
        n = n + 1;
    }
    assert(marked(seen@) =~= Set::<int>::empty());
    proof {
        match field_outcome(pv, min as int, max as int) {
            Ok(t) => {
                assert(Set::<int>::empty().union(t) =~= t);
            },
            Err(_) => {},
        }
        assert(pv.skip(0) =~= pv);
    }
    let mut all = false;
    let mut i: usize = 0;
    while i < parts.len() && !all
        invariant
            i <= parts@.len(),
            pv == parts@.map_values(|q: Vec<char>| q@),
            pv == split_char(field@, ','),
            seen@.len() == 256,
            min <= max < 255,
            all ==> cron_field_spec(field@, min as int, max as int) == Ok::<
                Set<int>,
                ScheduleErrorView,
            >(marked(seen@)),
            !all ==> cron_field_spec(field@, min as int, max as int) == lift_union(
                marked(seen@),
                field_outcome(pv.skip(i as int), min as int, max as int),
            ),
            marked(seen@).subset_of(range_set(min as int, max as int)),
        decreases parts@.len() - i,
    {
        let part = trim_chars(&parts[i]);
        let ghost rest = pv.skip(i as int);
        assert(rest[0] == parts@[i as int]@);
        assert(rest.drop_first() =~= pv.skip(i + 1));
        let c = classify_part(&part, min, max);
        match c {
            Err(e) => {
                return Err(e);
            },
            Ok(None) => {
                let ghost acc = marked(seen@);
                mark_steps(&mut seen, min, max, 1);
                proof {
                    assert(step_set(min as int, max as int, 1) =~= range_set(min as int, max as int));
                    assert(acc.union(range_set(min as int, max as int)) =~= range_set(
                        min as int,
                        max as int,
                    ));
                }
                all = true;
                i = i + 1;
            },
            Ok(Some((lo, hi, k))) => {
                let ghost acc = marked(seen@);
                let ghost s = step_set(lo as int, hi as int, k as int);
                mark_steps(&mut seen, lo, hi, k);
                proof {
                    let tail = field_outcome(pv.skip(i + 1), min as int, max as int);
                    match tail {
                        Ok(t) => {
                            assert(acc.union(s.union(t)) =~= acc.union(s).union(t));
                        },
                        Err(_) => {},
                    }
                    assert forall|x: int| s.contains(x) implies range_set(
                        min as int,
                        max as int,
                    ).contains(x) by {}
                }
                i = i + 1;
            },
        }
    }
    proof {
        if !all {
            assert(pv.skip(parts@.len() as int) =~= Seq::<Seq<char>>::empty());
            assert(marked(seen@).union(Set::empty()) =~= marked(seen@));
        }
    }
    let ghost result = marked(seen@);
    let mut out: Vec<u8> = Vec::new();
    let mut v: u16 = min as u16;
    while v <= max as u16
        invariant
            min <= v <= (max as u16) + 1,
            max < 255,
            seen@.len() == 256,
            result == marked(seen@),
            result.subset_of(range_set(min as int, max as int)),
            forall|a: int, b: int| 0 <= a < b < out@.len() ==> out@[a] < out@[b],
            forall|a: int| 0 <= a < out@.len() ==> out@[a] < v && result.contains(out@[a] as int),
            forall|x: int|
                min <= x < v && result.contains(x) ==> exists|a: int|
                    0 <= a < out@.len() && out@[a] as int == x,
        decreases (max as u16) + 1 - v,
    {
        let ghost old_out = out@;
        if seen[v as usize] {
            out.push(v as u8);
            proof {
                assert(out@[out@.len() - 1] == v as u8);
                assert forall|x: int|
                    min <= x < v + 1 && result.contains(x) implies exists|a: int|
                    0 <= a < out@.len() && out@[a] as int == x by {
                    if x == v {
                        assert(out@[out@.len() - 1] as int == x);
                    } else {
                        let a = choose|a: int| 0 <= a < old_out.len() && old_out[a] as int == x;
                        assert(out@[a] == old_out[a]);
                    }
                }
            }
        }
        v = v + 1;
    }
    proof {
        assert forall|x: int| result.contains(x) implies exists|a: int|
            0 <= a < out@.len() && out@[a] as int == x by {
            assert(range_set(min as int, max as int).contains(x));
        }
    }
    Ok(out)
}

} // verus!

verus! {

// ---------------------------------------------------------------------------
// Cron expressions
// ---------------------------------------------------------------------------

/// A parsed cron expression with five fields: minute, hour, day of month,
/// month and day of week.
#[derive(Debug, Clone)]
pub struct CronExpression {
    /// Allowed minutes (0-59).
    pub minutes: Vec<u8>,
    /// Allowed hours (0-23).
    pub hours: Vec<u8>,
    /// Allowed days of the month (1-31).
    pub days_of_month: Vec<u8>,
    /// Allowed months (1-12).
    pub months: Vec<u8>,
    /// Allowed days of the week (0-6, 0 = Sunday).
    pub days_of_week: Vec<u8>,
}

/// The five allowed-value sets of a cron expression.
pub struct CronSets {
    pub minutes: Set<int>,
    pub hours: Set<int>,
    pub days_of_month: Set<int>,
    pub months: Set<int>,
    pub days_of_week: Set<int>,
}

/// What parsing the cron expression `expr` gives: the fields are its
/// whitespace-separated words, read in order, and the first failing field
/// decides the error.
pub open spec fn cron_expr_spec(expr: Seq<char>) -> Result<CronSets, ScheduleErrorView> {
    let w = words(expr);
    if w.len() != 5 {
        Err(ScheduleErrorView::FieldCount { got: w.len() as usize, expr })
    } else {
        match cron_field_spec(w[0], 0, 59) {
            Err(e) => Err(e),
            Ok(mi) => match cron_field_spec(w[1], 0, 23) {
                Err(e) => Err(e),
                Ok(h) => match cron_field_spec(w[2], 1, 31) {
                    Err(e) => Err(e),
                    Ok(dm) => match cron_field_spec(w[3], 1, 12) {
                        Err(e) => Err(e),
                        Ok(mo) => match cron_field_spec(w[4], 0, 6) {
                            Err(e) => Err(e),
                            Ok(dw) => Ok(
                                CronSets {
                                    minutes: mi,
                                    hours: h,
                                    days_of_month: dm,
                                    months: mo,
                                    days_of_week: dw,
                                },
                            ),
                        },
                    },
                },
            },
        }
    }
}

/// The expression lists exactly the sets `s`.
pub open spec fn expr_lists(c: CronExpression, s: CronSets) -> bool {
    &&& lists_set(c.minutes@, s.minutes)
    &&& lists_set(c.hours@, s.hours)
    &&& lists_set(c.days_of_month@, s.days_of_month)
    &&& lists_set(c.months@, s.months)
    &&& lists_set(c.days_of_week@, s.days_of_week)
}

impl CronExpression {
    /// Parse a five-field cron expression such as `*/5 * * * *` or `0 */6 * * *`.
    pub fn parse(expr: &str) -> (r: Result<CronExpression, ScheduleError>)
        ensures
            match r {
                Ok(c) => cron_expr_spec(expr@) matches Ok(s) && expr_lists(c, s),
                Err(e) => cron_expr_spec(expr@) == Err::<CronSets, ScheduleErrorView>(e@),
            },
    {
        let chars = chars_of(expr);
        Self::parse_chars(&chars)
    }

    /// [`CronExpression::parse`] on the characters of the expression.
    pub fn parse_chars(expr: &[char]) -> (r: Result<CronExpression, ScheduleError>)
        ensures
            match r {
                Ok(c) => cron_expr_spec(expr@) matches Ok(s) && expr_lists(c, s),
                Err(e) => cron_expr_spec(expr@) == Err::<CronSets, ScheduleErrorView>(e@),
            },
    {
        let fields = split_whitespace(expr);
        let ghost w = fields@.map_values(|q: Vec<char>| q@);
        assert(w.len() == fields@.len());
        if fields.len() != 5 {
            return Err(
                ScheduleError::FieldCount {
                    got: fields.len(),
                    expr: crate::text::string_from_chars(expr),
                },
            );
        }
        assert(w[0] == fields@[0]@ && w[1] == fields@[1]@ && w[2] == fields@[2]@ && w[3]
            == fields@[3]@ && w[4] == fields@[4]@);
        let minutes = parse_cron_field_chars(&fields[0], 0, 59)?;
        let hours = parse_cron_field_chars(&fields[1], 0, 23)?;
        let days_of_month = parse_cron_field_chars(&fields[2], 1, 31)?;
        let months = parse_cron_field_chars(&fields[3], 1, 12)?;
        let days_of_week = parse_cron_field_chars(&fields[4], 0, 6)?;
        Ok(CronExpression { minutes, hours, days_of_month, months, days_of_week })
    }
}

} // verus!
