//! Calendar days as plain numbers. A day is its number in the proleptic
//! Gregorian calendar, January 1 of year 1 being day 1, which is how
//! `chrono::NaiveDate` numbers it; the next day is the next number. Text
//! goes in and out in `YYYY-MM-DD` form through chrono.
use vstd::prelude::*;

use chrono::Datelike;

verus! {

/// What `chrono::NaiveDate::parse_from_str(s, "%Y-%m-%d")` gives for a
/// text: the day number of the date, or the text of chrono's parse error.
pub uninterp spec fn ymd_parse(s: Seq<char>) -> Result<i32, Seq<char>>;

/// The day number of a `YYYY-MM-DD` text, `None` where chrono refuses it.
pub open spec fn ymd_day(s: Seq<char>) -> Option<i32> {
    match ymd_parse(s) {
        Ok(d) => Some(d),
        Err(_) => None,
    }
}

/// The text of `YYYY-MM-DD` form that the day number `day` has.
pub uninterp spec fn ymd_text(day: i32) -> Option<Seq<char>>;

/// `chrono::NaiveDate::parse_from_str` with the `%Y-%m-%d` format; the
/// date is read as its day number (`Datelike::num_days_from_ce`), the
/// error as its displayed text. The grammar chrono accepts is not written
/// out: the result is named, and depends on the text alone.
#[verifier::external_body]
pub(crate) fn parse_day(s: &str) -> (r: Result<i32, String>)
    ensures
        match r {
            Ok(d) => ymd_parse(s@) == Ok::<i32, Seq<char>>(d),
            Err(m) => ymd_parse(s@) == Err::<i32, Seq<char>>(m@),
        },
{
    match chrono::NaiveDate::parse_from_str(s, "%Y-%m-%d") {
        Ok(d) => Ok(d.num_days_from_ce()),
        Err(e) => Err(e.to_string()),
    }
}

/// `chrono::NaiveDate::format` with `%Y-%m-%d`, on the date that
/// `NaiveDate::from_num_days_from_ce_opt` makes of the day number; `None`
/// where that date does not exist. The text is named and depends on the
/// number alone.
#[verifier::external_body]
pub(crate) fn format_day(day: i32) -> (r: Option<String>)
    ensures
        match r {
            Some(t) => ymd_text(day) == Some(t@),
            None => ymd_text(day) == None::<Seq<char>>,
        },
{
    match chrono::NaiveDate::from_num_days_from_ce_opt(day) {
        Some(d) => Some(d.format("%Y-%m-%d").to_string()),
        None => None,
    }
}

/// `texts` holds, in order, the texts of the days `first`, `first + 1`,
/// ...: as many as exist before `last` is passed or a day has no date.
pub open spec fn day_run(texts: Seq<Seq<char>>, first: int, last: int) -> bool {
    &&& first <= last ==> texts.len() <= last - first + 1
    &&& first > last ==> texts.len() == 0
    &&& forall|i: int| 0 <= i < texts.len() ==> ymd_text((first + i) as i32) == Some(#[trigger] texts[i])
    &&& first <= last && texts.len() < last - first + 1 ==> ymd_text((first + texts.len()) as i32)
        == None::<Seq<char>>
}

/// The views of a vector of strings.
pub open spec fn views(v: Seq<String>) -> Seq<Seq<char>> {
    v.map_values(|s: String| s@)
}

/// The texts of the days `first` through `last`, both included, in
/// order; empty when `last` comes before `first`. A day without a date
/// ends the list there.
pub fn day_texts(first: i32, last: i32) -> (r: Vec<String>)
    ensures
        day_run(views(r@), first as int, last as int),
{
    let mut out: Vec<String> = Vec::new();
    if last < first {
        assert(views(out@) =~= Seq::<Seq<char>>::empty());
        return out;
    }
    let mut day: i32 = first;
    loop
        invariant_except_break
            out@.len() == day - first,
        invariant
            first <= day <= last,
            forall|i: int| 0 <= i < out@.len() ==> ymd_text((first + i) as i32) == Some(
                #[trigger] out@[i]@,
            ),
        ensures
            out@.len() <= last - first + 1,
            forall|i: int| 0 <= i < out@.len() ==> ymd_text((first + i) as i32) == Some(
                #[trigger] out@[i]@,
            ),
            out@.len() < last - first + 1 ==> ymd_text((first + out@.len()) as i32) == None::<
                Seq<char>,
            >,
        decreases last - day,
    {
        match format_day(day) {
            Some(t) => {
                out.push(t);
            },
            None => {
                break;
            },
        }
        if day >= last {
            break;
        }
        day = day + 1;
    }
    assert forall|i: int| 0 <= i < views(out@).len() implies ymd_text((first + i) as i32) == Some(
        #[trigger] views(out@)[i],
    ) by {
        assert(views(out@)[i] == out@[i]@);
    }
    out
}

} // verus!
