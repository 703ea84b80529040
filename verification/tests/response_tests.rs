use chatvault::datetime::{days_in_month, Date};
use chatvault::error::AppError;
use chatvault::models::DateStatisticOutput;
use chatvault::response::{content_disposition, div_toward_zero, month_statistics, page_output};

#[test]
fn page_numbers_round_up() {
    let p = page_output(vec![1, 2], 1, 20, 45);
    assert_eq!(p.total_pages, 3);
    assert!(!p.first);
    assert!(!p.last);
    assert_eq!(p.number, 1);
    assert_eq!(p.size, 20);
    assert_eq!(p.total_elements, 45);
    assert_eq!(p.content, vec![1, 2]);
    let last = page_output(Vec::<i32>::new(), 2, 20, 45);
    assert!(last.last);
}

#[test]
fn an_empty_listing_has_no_pages() {
    let p = page_output(Vec::<i32>::new(), 0, 20, 0);
    assert_eq!(p.total_pages, 0);
    assert!(p.first);
    assert!(p.last);
}

#[test]
fn a_negative_total_rounds_toward_zero() {
    assert_eq!(page_output(Vec::<i32>::new(), 0, 20, -5).total_pages, 0);
    assert_eq!(page_output(Vec::<i32>::new(), 0, 2, -5).total_pages, -2);
}

#[test]
fn law_pages_cover_the_total() {
    for total in [1i64, 19, 20, 21, 45, 2000] {
        for size in [1i64, 7, 20] {
            let n = page_output(Vec::<i32>::new(), 0, size, total).total_pages;
            assert!((n - 1) * size < total && total <= n * size);
        }
    }
}

#[test]
fn division_rounds_toward_zero() {
    assert_eq!(div_toward_zero(-7, 2), -3);
    assert_eq!(div_toward_zero(7, -2), -3);
    assert_eq!(div_toward_zero(i64::MIN, 2), i64::MIN / 2);
    assert_eq!(div_toward_zero(i64::MIN, i64::MIN), 1);
}

#[test]
fn content_disposition_drops_quotes() {
    assert_eq!(content_disposition("a\"b.txt"), "attachment; filename=\"ab.txt\"");
}

#[test]
fn days_in_month_follows_the_calendar() {
    assert_eq!(days_in_month(2024, 2), Ok(29));
    assert_eq!(days_in_month(2023, 2), Ok(28));
    assert_eq!(days_in_month(1900, 2), Ok(28));
    assert_eq!(days_in_month(2000, 2), Ok(29));
    assert_eq!(days_in_month(2023, 12), Ok(31));
    assert_eq!(days_in_month(2023, 4), Ok(30));
    assert_eq!(days_in_month(2023, 0), Ok(31));
    assert_eq!(days_in_month(2023, 13), Err(AppError::BadRequest("invalid month".to_string())));
}

fn day(d: u32) -> DateStatisticOutput {
    DateStatisticOutput { date: Date { year: 2024, month: 2, day: d }, count: 1 }
}

#[test]
fn month_statistics_give_the_bounds_of_the_month() {
    let stats: Vec<_> = (1..=16).map(day).collect();
    let out = month_statistics(2024, 2, stats).unwrap();
    assert_eq!(out.min_date, Date { year: 2024, month: 2, day: 1 });
    assert_eq!(out.max_date, Date { year: 2024, month: 2, day: 29 });
    assert!(out.is_data_dense);
    assert_eq!(out.statistics.len(), 16);
    let sparse = month_statistics(2024, 2, (1..=15).map(day).collect()).unwrap();
    assert!(!sparse.is_data_dense);
}

#[test]
fn month_statistics_refuse_invalid_months() {
    let bad = AppError::BadRequest("invalid month".to_string());
    assert_eq!(month_statistics(2024, 13, vec![]).err(), Some(bad));
    assert_eq!(
        month_statistics(2024, -1, vec![]).err(),
        Some(AppError::BadRequest("invalid month".to_string()))
    );
    assert_eq!(
        month_statistics(262142, 12, vec![]).err(),
        Some(AppError::BadRequest("invalid month".to_string()))
    );
}
