//! What the market-data client computes on its own: the session cookie in
//! `Set-Cookie` headers, the crumb in the quote page, the row of the earnings
//! calendar that holds a company's EPS, the last trading day and the Unix
//! bounds of a day.
use vstd::prelude::*;

use crate::text::{
    chars_of, index_of_char, opt_view, split_char, split_str, str_equal, trim_seq, trim_str,
};

verus! {

/// The value of an `A3` pair in one `;`-separated cookie part: the part is
/// trimmed, cut at its first `=`, and where the trimmed key is `A3` the
/// trimmed value is taken.
pub open spec fn a3_of_part(part: Seq<char>) -> Option<Seq<char>> {
    let p = trim_seq(part);
    let k = index_of_char(p, '=');
    if 0 <= k < p.len() && trim_seq(p.take(k)) == "A3"@ {
        Some(trim_seq(p.skip(k + 1)))
    } else {
        None
    }
}

/// The `A3` value of the first part that has one.
pub open spec fn first_a3(parts: Seq<Seq<char>>) -> Option<Seq<char>>
    decreases parts.len(),
{
    if parts.len() == 0 {
        None
    } else {
        match a3_of_part(parts[0]) {
            Some(v) => Some(v),
            None => first_a3(parts.drop_first()),
        }
    }
}

/// The `;`-separated parts of every readable header value, header by header.
pub open spec fn header_parts(headers: Seq<Option<Seq<char>>>) -> Seq<Seq<char>>
    decreases headers.len(),
{
    if headers.len() == 0 {
        Seq::empty()
    } else {
        header_parts(headers.drop_last()) + match headers.last() {
            Some(h) => split_char(h, ';'),
            None => Seq::empty(),
        }
    }
}

pub open spec fn header_views(headers: Seq<Option<String>>) -> Seq<Option<Seq<char>>> {
    Seq::new(headers.len(), |i: int| opt_view(headers[i]))
}

proof fn lemma_first_a3_append(a: Seq<Seq<char>>, b: Seq<Seq<char>>)
    ensures
        first_a3(a + b) == if first_a3(a) is Some {
            first_a3(a)
        } else {
            first_a3(b)
        },
    decreases a.len(),
{
    if a.len() > 0 {
        assert((a + b).drop_first() =~= a.drop_first() + b);
        assert((a + b)[0] == a[0]);
        lemma_first_a3_append(a.drop_first(), b);
    } else {
        assert(a + b =~= b);
    }
}

proof fn lemma_header_parts_append(a: Seq<Option<Seq<char>>>, b: Seq<Option<Seq<char>>>)
    ensures
        header_parts(a + b) == header_parts(a) + header_parts(b),
    decreases b.len(),
{
    if b.len() == 0 {
        assert(a + b =~= a);
        assert(header_parts(a) + header_parts(b) =~= header_parts(a));
    } else {
        assert((a + b).drop_last() =~= a + b.drop_last());
        assert((a + b).last() == b.last());
        lemma_header_parts_append(a, b.drop_last());
        let tail = match b.last() {
            Some(h) => split_char(h, ';'),
            None => Seq::<Seq<char>>::empty(),
        };
        assert(header_parts(a) + header_parts(b.drop_last()) + tail =~= header_parts(a) + (
        header_parts(b.drop_last()) + tail));
    }
}

/// The position of the first `c` in `v`, where there is one.
pub fn find_char(v: &Vec<char>, c: char) -> (r: Option<usize>)
    ensures
        match r {
            Some(k) => index_of_char(v@, c) == k as int && k < v.len(),
            None => index_of_char(v@, c) == -1,
        },
{
    let mut i: usize = 0;
    while i < v.len()
        invariant
            i <= v.len(),
            forall|j: int| 0 <= j < i ==> v@[j] != c,
        decreases v.len() - i,
    {
        if v[i] == c {
            proof {
                index_of_char_first(v@, c, i as int);
            }
            return Some(i);
        }
        i = i + 1;
    }
    proof {
        index_of_char_none(v@, c);
    }
    None
}

proof fn index_of_char_first(t: Seq<char>, c: char, k: int)
    requires
        0 <= k < t.len(),
        t[k] == c,
        forall|j: int| 0 <= j < k ==> t[j] != c,
    ensures
        index_of_char(t, c) == k,
    decreases k,
{
    if k > 0 {
        index_of_char_first(t.drop_first(), c, k - 1);
    }
}

proof fn index_of_char_none(t: Seq<char>, c: char)
    requires
        forall|j: int| 0 <= j < t.len() ==> t[j] != c,
    ensures
        index_of_char(t, c) == -1,
    decreases t.len(),
{
    if t.len() > 0 {
        index_of_char_none(t.drop_first(), c);
    }
}

/// The `A3` value in one cookie part, where it has one.
pub fn a3_from_part(part: &str) -> (r: Option<String>)
    ensures
        opt_view(r) == a3_of_part(part@),
{
    let p = trim_str(part);
    let v = chars_of(p);
    match find_char(&v, '=') {
        None => None,
        Some(k) => {
            let key = trim_str(p.substring_char(0, k));
            assert(p@.subrange(0, k as int) =~= p@.take(k as int));
            if str_equal(key, "A3") {
                let value = trim_str(p.substring_char(k + 1, v.len()));
                assert(p@.subrange(k + 1, v.len() as int) =~= p@.skip(k + 1));
                Some(String::from_str(value))
            } else {
                None
            }
        },
    }
}

/// The session cookie `A3` in the values of a response's `Set-Cookie`
/// headers (`None` for a value that is not readable text): the first part,
/// header by header and left to right, that holds an `A3=` pair.
pub fn find_a3_cookie(headers: &Vec<Option<String>>) -> (r: Option<String>)
    ensures
        opt_view(r) == first_a3(header_parts(header_views(headers@))),
{
    let ghost hv = header_views(headers@);
    let mut i: usize = 0;
    assert(hv.take(0) =~= Seq::<Option<Seq<char>>>::empty());
    while i < headers.len()
        invariant
            hv == header_views(headers@),
            hv.len() == headers.len(),
            i <= headers.len(),
            first_a3(header_parts(hv.take(i as int))) is None,
        decreases headers.len() - i,
    {
        proof {
            assert(hv.take(i + 1).drop_last() =~= hv.take(i as int));
            assert(hv.take(i + 1).last() == hv[i as int]);
        }
        match &headers[i] {
            None => {
                assert(header_parts(hv.take(i + 1)) =~= header_parts(hv.take(i as int)));
            },
            Some(h) => {
                let parts = split_str(h.as_str(), ';');
                let ghost pv = split_char(h@, ';');
                assert(hv[i as int] == Some(h@));
                let mut j: usize = 0;
                assert(pv.take(0) =~= Seq::<Seq<char>>::empty());
                assert(header_parts(hv.take(i + 1)) == header_parts(hv.take(i as int)) + pv);
                while j < parts.len()
                    invariant
                        hv == header_views(headers@),
                        hv.len() == headers.len(),
                        i < headers.len(),
                        header_parts(hv.take(i + 1)) == header_parts(hv.take(i as int)) + pv,
                        pv == split_char(h@, ';'),
                        parts.len() == pv.len(),
                        forall|m: int| 0 <= m < parts.len() ==> (#[trigger] parts@[m])@ == pv[m],
                        j <= parts.len(),
                        first_a3(header_parts(hv.take(i as int))) is None,
                        first_a3(pv.take(j as int)) is None,
                    decreases parts.len() - j,
                {
                    let found = a3_from_part(parts[j]);
                    proof {
                        let one = seq![pv[j as int]];
                        lemma_first_a3_append(pv.take(j as int), one);
                        assert(pv.take(j + 1) =~= pv.take(j as int) + one);
                        assert(one.drop_first() =~= Seq::<Seq<char>>::empty());
                        assert(first_a3(one.drop_first()) is None);
                        assert(one[0] == parts@[j as int]@);
                    }
                    match found {
                        Some(v) => {
                            proof {
                                let all = header_parts(hv);
                                let before = header_parts(hv.take(i as int));
                                let rest_parts = pv.skip(j as int);
                                assert(pv =~= pv.take(j as int) + rest_parts);
                                assert(rest_parts[0] == pv[j as int]);
                                lemma_first_a3_append(pv.take(j as int), rest_parts);
                                lemma_first_a3_append(before, pv);
                                assert(hv =~= hv.take(i + 1) + hv.skip(i + 1));
                                lemma_header_parts_append(hv.take(i + 1), hv.skip(i + 1));
                                lemma_first_a3_append(
                                    header_parts(hv.take(i + 1)),
                                    header_parts(hv.skip(i + 1)),
                                );
                            }
                            return Some(v);
                        },
                        None => {},
                    }
                    j = j + 1;
                }
                proof {
                    assert(pv.take(parts.len() as int) =~= pv);
                    lemma_first_a3_append(header_parts(hv.take(i as int)), pv);
                }
            },
        }
        i = i + 1;
    }
    assert(hv.take(headers.len() as int) =~= hv);
    None
}

#[verifier::external_type_specification]
#[verifier::external_body]
pub struct ExRegexError(regex::Error);

/// The text of capture group 1 of the leftmost match that regex finds for a
/// pattern in a text: `None` where the pattern does not compile, `Some(None)`
/// where there is no match or the group took no part in it.
pub uninterp spec fn spec_regex_group1(pattern: Seq<char>, text: Seq<char>) -> Option<
    Option<Seq<char>>,
>;

/// Calls regex's `Regex::new` on the pattern, then `captures` on the text and
/// `get(1)` on the captures. Claimed: the result is the named value
/// `spec_regex_group1` of pattern and text, with an error exactly where it is
/// `None`; nothing is claimed of the error itself.
#[verifier::external_body]
fn regex_group1(pattern: &str, text: &str) -> (r: Result<Option<String>, regex::Error>)
    ensures
        match r {
            Ok(g) => spec_regex_group1(pattern@, text@) == Some(opt_view(g)),
            Err(_) => spec_regex_group1(pattern@, text@) is None,
        },
{
    let re = regex::Regex::new(pattern)?;
    Ok(re.captures(text).and_then(|cap| cap.get(1).map(|m| m.as_str().to_string())))
}

/// Why no crumb could be read from the quote page.
#[derive(Clone, Copy, Debug, PartialEq, Eq, Structural)]
pub enum CrumbError {
    /// The crumb pattern did not compile.
    Pattern,
    /// The page holds no crumb.
    Missing,
}

/// The crumb that the quote page carries: capture group 1 of the pattern
/// below, in the leftmost place it matches.
pub open spec fn spec_crumb(page: Seq<char>) -> Result<Seq<char>, CrumbError> {
    match spec_regex_group1(CRUMB_PATTERN@, page) {
        None => Err(CrumbError::Pattern),
        Some(None) => Err(CrumbError::Missing),
        Some(Some(c)) => Ok(c),
    }
}

/// The pattern of the crumb in the quote page.
pub const CRUMB_PATTERN: &'static str = "\"crumb\":\"([^\"]+)\"";

/// Reads the crumb from the quote page.
pub fn extract_crumb(page: &str) -> (r: Result<String, CrumbError>)
    ensures
        match r {
            Ok(c) => spec_crumb(page@) == Ok::<Seq<char>, CrumbError>(c@),
            Err(e) => spec_crumb(page@) == Err::<Seq<char>, CrumbError>(e),
        },
{
    match regex_group1(CRUMB_PATTERN, page) {
        Err(_) => Err(CrumbError::Pattern),
        Ok(None) => Err(CrumbError::Missing),
        Ok(Some(c)) => Ok(c),
    }
}

/// One row of the earnings calendar, as far as the lookup reads it: the
/// ticker in its first column, where that column is a string, and whether its
/// sixth column holds a number (the reported EPS).
#[derive(Clone, Debug)]
pub struct EpsRow {
    pub ticker: Option<String>,
    pub has_eps: bool,
}

/// The ticker a row is matched by: its ticker, or the empty string where the
/// first column is not a string.
pub open spec fn row_ticker(row: EpsRow) -> Seq<char> {
    match row.ticker {
        Some(t) => t@,
        None => Seq::empty(),
    }
}

/// The row the reported EPS of `symbol` is read from: the first row whose
/// ticker is `symbol` and that holds a number, if any.
pub open spec fn is_eps_row(rows: Seq<EpsRow>, symbol: Seq<char>, i: int) -> bool {
    0 <= i < rows.len() && row_ticker(rows[i]) == symbol && rows[i].has_eps
}

/// Finds the row of the earnings calendar that gives the reported EPS of
/// `symbol`: the first row whose ticker is `symbol` and whose EPS column holds
/// a number; `None` where no row does.
pub fn find_eps_row(rows: &Vec<EpsRow>, symbol: &str) -> (r: Option<usize>)
    ensures
        match r {
            Some(i) => is_eps_row(rows@, symbol@, i as int) && forall|j: int|
                0 <= j < i ==> !is_eps_row(rows@, symbol@, j),
            None => forall|j: int| 0 <= j < rows@.len() ==> !is_eps_row(rows@, symbol@, j),
        },
{
    let mut i: usize = 0;
    while i < rows.len()
        invariant
            i <= rows@.len(),
            forall|j: int| 0 <= j < i ==> !is_eps_row(rows@, symbol@, j),
        decreases rows@.len() - i,
    {
        let row = &rows[i];
        proof {
            reveal_strlit("");
        }
        let matches = match &row.ticker {
            Some(t) => str_equal(t.as_str(), symbol),
            None => {
                assert(""@ =~= Seq::<char>::empty());
                str_equal("", symbol)
            },
        };
        assert(matches == (row_ticker(rows@[i as int]) == symbol@));
        if matches && row.has_eps {
            return Some(i);
        }
        i = i + 1;
    }
    None
}

/// The day of the week of a day numbered as chrono's `num_days_from_ce`
/// numbers it (1 is Monday, 1 January of year 1): 0 for Monday to 6 for Sunday.
pub open spec fn weekday_index(day: int) -> int {
    (day - 1) % 7
}

/// Saturday or Sunday.
pub open spec fn is_weekend(day: int) -> bool {
    weekday_index(day) >= 5
}

/// The day of the week of `day`, 0 for Monday to 6 for Sunday.
pub fn weekday_of(day: i32) -> (r: u32)
    ensures
        r as int == weekday_index(day as int),
{
    let shifted: i64 = day as i64 - 1 + 2_800_000_000;
    assert(2_800_000_000int % 7 == 0);
    let w = (shifted % 7) as u32;
    assert(w as int == weekday_index(day as int)) by (nonlinear_arith)
        requires
            shifted == day - 1 + 2_800_000_000,
            shifted > 0,
            w as int == shifted % 7,
    ;
    w
}

proof fn lemma_no_three_weekend_days(d: int)
    ensures
        !(is_weekend(d) && is_weekend(d + 1) && is_weekend(d + 2)),
{
}

/// The last trading day at or before `day`: `day` itself on a weekday, else
/// the Friday before.
pub fn last_trading_day(day: i32) -> (r: i32)
    requires
        day >= i32::MIN + 2,
    ensures
        r <= day,
        day - r <= 2,
        !is_weekend(r as int),
        forall|d: int| r < d <= day ==> is_weekend(d),
{
    let mut d = day;
    while weekday_of(d) >= 5
        invariant
            d <= day,
            day - d <= 2,
            forall|x: int| d < x <= day ==> is_weekend(x),
            day >= i32::MIN + 2,
        decreases d - (i32::MIN as int),
    {
        proof {
            if day - d == 2 {
                assert(is_weekend(d as int + 1));
                assert(is_weekend(d as int + 2));
                lemma_no_three_weekend_days(d as int);
            }
        }
        d = d - 1;
    }
    d
}

/// The Unix seconds at which a day (numbered from 1 January of year 1) starts
/// and the next day starts.
pub fn day_unix_bounds(day: i32) -> (r: (i64, i64))
    ensures
        r.0 == (day as int - 719163) * 86400,
        r.1 == r.0 + 86400,
{
    let start: i64 = (day as i64 - 719163) * 86400;
    (start, start + 86400)
}

} // verus!
