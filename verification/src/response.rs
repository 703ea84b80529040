//! Paging of listings, response headers, and month statistics.
use vstd::prelude::*;
use crate::datetime::{date_exists, date_from_ymd, days_in_month, month_length, Date};
use crate::error::AppError;
use crate::models::{DateStatisticOutput, MessageStatisticsOutput, PageOutput};
use crate::text::{chars_of, push_char};

verus! {

broadcast use vstd::string::group_string_axioms;

/// Integer division rounding toward zero, as Rust's `/` on signed integers.
pub open spec fn trunc_div(a: int, b: int) -> int {
    if a >= 0 {
        if b > 0 {
            a / b
        } else {
            -(a / -b)
        }
    } else {
        if b > 0 {
            -((-a) / b)
        } else {
            (-a) / (-b)
        }
    }
}

/// Rust's `/` on `i64`: the quotient rounded toward zero.
pub fn div_toward_zero(a: i64, b: i64) -> (res: i64)
    requires
        b != 0,
        !(a == i64::MIN && b == -1),
    ensures
        res == trunc_div(a as int, b as int),
{
    let ghost ai = a as int;
    let ghost bi = b as int;
    if a >= 0 {
        if b > 0 {
            a / b
        } else if b == i64::MIN {
            assert(ai / (-bi) == 0) by (nonlinear_arith)
                requires
                    0 <= ai < -bi,
            ;
            0
        } else {
            let q = a / (-b);
            -q
        }
    } else if a == i64::MIN {
        if b > 0 {
            if b == 1 {
                assert((-ai) / bi == -ai) by (nonlinear_arith)
                    requires
                        bi == 1,
                ;
                i64::MIN
            } else {
                let q = (-(a + b)) / b + 1;
                assert((-(ai + bi)) / bi + 1 == (-ai) / bi) by (nonlinear_arith)
                    requires
                        bi > 1,
                        ai < 0,
                        -(ai + bi) >= 0,
                ;
                -q
            }
        } else {
            if b == i64::MIN {
                assert((-ai) / (-bi) == 1) by (nonlinear_arith)
                    requires
                        ai == bi,
                        bi < 0,
                ;
                1
            } else {
                let q = (-(a - b)) / (-b) + 1;
                assert((-(ai - bi)) / (-bi) + 1 == (-ai) / (-bi)) by (nonlinear_arith)
                    requires
                        bi < -1,
                        ai < 0,
                        -(ai - bi) >= 0,
                ;
                q
            }
        }
    } else {
        if b > 0 {
            let q = (-a) / b;
            -q
        } else if b == i64::MIN {
            assert((-ai) / (-bi) == 0) by (nonlinear_arith)
                requires
                    0 < -ai < -bi,
            ;
            0
        } else {
            (-a) / (-b)
        }
    }
}

/// The number of pages of `size` items that `total` items take.
pub open spec fn page_count(total: int, size: int) -> int {
    if total == 0 {
        0
    } else {
        trunc_div(total + size - 1, size)
    }
}

/// Whether `page_output` can compute its numbers without overflow or a
/// division by zero.
pub open spec fn page_numbers_fit(page: int, size: int, total: int) -> bool {
    &&& page < i64::MAX
    &&& total != 0 ==> {
        &&& size != 0
        &&& i64::MIN <= total + size <= i64::MAX
        &&& i64::MIN <= total + size - 1
        &&& !(total + size - 1 == i64::MIN && size == -1)
    }
}

/// A page of a listing: page number `page` of pages of `size` items, out of
/// `total` items. The page count rounds up; the page is first when its
/// number is 0 and last when no page follows it.
pub fn page_output<T>(content: Vec<T>, page: i64, size: i64, total: i64) -> (res: PageOutput<T>)
    requires
        page_numbers_fit(page as int, size as int, total as int),
    ensures
        res.content == content,
        res.number == page,
        res.size == size,
        res.total_elements == total,
        res.total_pages == page_count(total as int, size as int),
        res.first == (page == 0),
        res.last == (page + 1 >= page_count(total as int, size as int)),
{
    let total_pages = if total == 0 {
        0
    } else {
        div_toward_zero(total + size - 1, size)
    };
    PageOutput {
        first: page == 0,
        last: page + 1 >= total_pages,
        number: page,
        size,
        total_elements: total,
        total_pages,
        content,
    }
}

/// For a positive page size, the pages hold all items and no page is empty:
/// `(total_pages - 1) * size < total <= total_pages * size` for a positive
/// total, and no pages for none.
pub proof fn law_pages_cover_total(total: int, size: int)
    requires
        total >= 0,
        size >= 1,
    ensures
        total == 0 ==> page_count(total, size) == 0,
        total > 0 ==> (page_count(total, size) - 1) * size < total <= page_count(total, size) * size,
{
    if total > 0 {
        let n = total + size - 1;
        let q = n / size;
        let r = n % size;
        assert(n == q * size + r && 0 <= r < size) by (nonlinear_arith)
            requires
                size >= 1,
                q == n / size,
                r == n % size,
        ;
        assert(q * size - size == (q - 1) * size) by (nonlinear_arith);
    }
}

/// `"`
pub open spec fn quote() -> Seq<char> {
    seq!['"']
}

/// The text after `filename="` in a content disposition: the file name with
/// its double quotes removed.
pub open spec fn without_quotes(s: Seq<char>) -> Seq<char>
    decreases s.len(),
{
    if s.len() == 0 {
        s
    } else if s.last() == '"' {
        without_quotes(s.drop_last())
    } else {
        without_quotes(s.drop_last()).push(s.last())
    }
}

/// Removing the double quotes of a file name keeps every other character, in
/// order: the result is the name filtered to its characters other than `"`,
/// holds no `"`, and is the name itself when the name holds none.
pub proof fn law_without_quotes_keeps_other_characters(s: Seq<char>)
    ensures
        without_quotes(s) == s.filter(|c: char| c != '"'),
        !without_quotes(s).contains('"'),
        !s.contains('"') ==> without_quotes(s) == s,
    decreases s.len(),
{
    reveal(Seq::filter);
    if s.len() > 0 {
        law_without_quotes_keeps_other_characters(s.drop_last());
        if !s.contains('"') {
            assert(!s.drop_last().contains('"')) by {
                if s.drop_last().contains('"') {
                    let k = choose|k: int| 0 <= k < s.drop_last().len() && s.drop_last()[k] == '"';
                    assert(s[k] == '"');
                }
            }
            assert(s.last() != '"') by {
                if s.last() == '"' {
                    assert(s[s.len() - 1] == '"');
                }
            }
            assert(s.drop_last().push(s.last()) =~= s);
        }
        let w = without_quotes(s);
        if w.contains('"') {
            let k = choose|k: int| 0 <= k < w.len() && w[k] == '"';
            let r = without_quotes(s.drop_last());
            if s.last() != '"' {
                assert(w == r.push(s.last()));
                if k < r.len() {
                    assert(r[k] == '"');
                }
            }
            assert(r.contains('"'));
        }
    }
}

/// A file name without double quotes is offered for download under exactly
/// that name: `attachment; filename="` + name + `"`.
pub proof fn law_quote_free_name_is_kept(filename: Seq<char>)
    requires
        !filename.contains('"'),
    ensures
        "attachment; filename=\""@ + without_quotes(filename) + quote() == "attachment; filename=\""@
            + filename + "\""@,
{
    law_without_quotes_keeps_other_characters(filename);
    assert(quote() =~= "\""@) by {
        reveal_strlit("\"");
    }
}

/// The `Content-Disposition` value of a download: an attachment with the
/// file name, its double quotes removed, in double quotes.
pub fn content_disposition(filename: &str) -> (res: String)
    ensures
        res@ == "attachment; filename=\""@ + without_quotes(filename@) + quote(),
{
    let mut out = "attachment; filename=\"".to_owned();
    let ghost base = out@;
    let f = chars_of(filename);
    let mut i: usize = 0;
    while i < f.len()
        invariant
            i <= f@.len(),
            f@ == filename@,
            out@ == base + without_quotes(f@.take(i as int)),
        decreases f@.len() - i,
    {
        assert(f@.take(i + 1).drop_last() =~= f@.take(i as int));
        if f[i] != '"' {
            push_char(&mut out, f[i]);
        }
        i = i + 1;
    }
    assert(f@.take(f@.len() as int) =~= f@);
    push_char(&mut out, '"');
    out
}

/// Whether `month_statistics` accepts the month: it exists, and so does the
/// first day of the month after it.
pub open spec fn statistics_month_ok(year: int, month: int) -> bool {
    date_exists(year, month, 1) && !(month == 12 && year == crate::datetime::MAX_YEAR)
}

/// Whether a month has messages on more than 15 days.
pub open spec fn is_dense(days_with_messages: int) -> bool {
    days_with_messages > 15
}

/// The statistics of a month from the per-day counts: the month's first and
/// last day, and whether more than 15 days have messages. Refused with
/// "invalid month" when the month does not exist, or when it is the last
/// month that chrono can hold (its following month does not exist).
pub fn month_statistics(year: i32, month: i32, statistics: Vec<DateStatisticOutput>) -> (res: Result<
    MessageStatisticsOutput,
    AppError,
>)
    ensures
        match res {
            Ok(out) => {
                &&& statistics_month_ok(year as int, month as int)
                &&& out.year == year
                &&& out.month == month
                &&& out.statistics@ == statistics@
                &&& out.min_date == (Date { year, month: month as u32, day: 1 })
                &&& out.max_date == (Date {
                    year,
                    month: month as u32,
                    day: month_length(year as int, month as int) as u32,
                })
                &&& out.is_data_dense == is_dense(statistics@.len() as int)
            },
            Err(e) => {
                &&& !statistics_month_ok(year as int, month as int)
                &&& e matches AppError::BadRequest(m)
                &&& m@ == "invalid month"@
            },
        },
{
    if month < 0 {
        return Err(AppError::bad_request("invalid month"));
    }
    let m = month as u32;
    let first = match date_from_ymd(year, m, 1) {
        Some(d) => d,
        None => return Err(AppError::bad_request("invalid month")),
    };
    let max_day = match days_in_month(year, m) {
        Ok(n) => n,
        Err(e) => return Err(e),
    };
    proof {
        if !(month == 12 && year == crate::datetime::MAX_YEAR) {
            crate::datetime::lemma_days_in_month_is_month_length(year as int, month as int);
        }
    }
    let last = match date_from_ymd(year, m, max_day) {
        Some(d) => d,
        None => return Err(AppError::bad_request("invalid month")),
    };
    let dense = statistics.len() > 15;
    Ok(MessageStatisticsOutput {
        month,
        year,
        statistics,
        min_date: first,
        max_date: last,
        is_data_dense: dense,
    })
}

} // verus!
