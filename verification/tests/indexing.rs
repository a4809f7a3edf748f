use liftplan::index::{path_to_month, Index, Month};
use liftplan::text::{parse_plate_token, parse_u64, TokenError};

fn page(year: u64, month: u8) -> Month {
    let stem = format!("{}-{}", year, month);
    let href = format!("{}-{}.html", year, month);
    path_to_month(&stem, &href).unwrap()
}

#[test]
fn stem_parses_to_month() {
    let m = path_to_month("2024-5", "2024-5.html").unwrap();
    assert_eq!(m.year, 2024);
    assert_eq!(m.month, 5);
    assert_eq!(m.name.as_str(), "May");
    assert_eq!(m.href.as_str(), "2024-5.html");
}

#[test]
fn stem_extra_parts_ignored() {
    let m = path_to_month("2023-12-extra", "x").unwrap();
    assert_eq!(m.year, 2023);
    assert_eq!(m.month, 12);
    assert_eq!(m.name.as_str(), "December");
}

#[test]
fn stem_month_zero_reads_as_january() {
    let m = path_to_month("2024-0", "x").unwrap();
    assert_eq!(m.month, 0);
    assert_eq!(m.name.as_str(), "January");
}

#[test]
fn bad_stems_rejected() {
    assert!(path_to_month("index", "index.html").is_none());
    assert!(path_to_month("", "x").is_none());
    assert!(path_to_month("-5", "x").is_none());
    assert!(path_to_month("2024-", "x").is_none());
    assert!(path_to_month("2024-13", "x").is_none());
    assert!(path_to_month("abc-5", "x").is_none());
    assert!(path_to_month("2024-x", "x").is_none());
}

#[test]
fn add_month_groups_by_year() {
    let mut index = Index::new();
    index.add_month(page(2024, 5));
    index.add_month(page(2024, 2));
    index.add_month(page(2023, 7));
    assert_eq!(index.years.len(), 2);
    assert_eq!(index.years[0].year, 2024);
    assert_eq!(index.years[0].months.len(), 2);
    assert_eq!(index.years[1].year, 2023);
    assert_eq!(index.years[1].months.len(), 1);
}

#[test]
fn december_parses() {
    let m = path_to_month("2024-12", "2024-12.html").unwrap();
    assert_eq!(m.month, 12);
    assert_eq!(m.name.as_str(), "December");
}

#[test]
fn index_groups_and_sorts() {
    let mut index = Index::new();
    index.add_month(page(2023, 7));
    index.add_month(page(2024, 2));
    index.add_month(page(2023, 3));
    index.add_month(page(2024, 1));
    index.sort();
    assert_eq!(index.years.len(), 2);
    assert_eq!(index.years[0].year, 2024);
    assert_eq!(index.years[1].year, 2023);
    let months_2024: Vec<u8> = index.years[0].months.iter().map(|m| m.month).collect();
    assert_eq!(months_2024, vec![1, 2]);
    let months_2023: Vec<u8> = index.years[1].months.iter().map(|m| m.month).collect();
    assert_eq!(months_2023, vec![3, 7]);
}

#[test]
fn decimal_parsing() {
    assert_eq!(parse_u64("311"), Some(311));
    assert_eq!(parse_u64("0"), Some(0));
    assert_eq!(parse_u64(""), None);
    assert_eq!(parse_u64("3a"), None);
    assert_eq!(parse_u64("99999999999999999999999"), None);
}

#[test]
fn plate_tokens_parse() {
    assert_eq!(parse_plate_token("45x2"), Ok((450, 2)));
    assert_eq!(parse_plate_token("45"), Ok((450, 1)));
    assert_eq!(parse_plate_token("2.5"), Ok((25, 1)));
    assert_eq!(parse_plate_token("2.5x4"), Ok((25, 4)));
    assert_eq!(parse_plate_token("0"), Ok((0, 1)));
}

#[test]
fn plate_token_empty_rejected() {
    assert_eq!(parse_plate_token(""), Err(TokenError::Empty));
}

#[test]
fn plate_token_bad_weight_rejected() {
    assert_eq!(parse_plate_token("abc"), Err(TokenError::BadWeight));
    assert_eq!(parse_plate_token(".5"), Err(TokenError::BadWeight));
    assert_eq!(parse_plate_token("4.55"), Err(TokenError::BadWeight));
    assert_eq!(parse_plate_token("4.x2"), Err(TokenError::BadWeight));
    assert_eq!(parse_plate_token("99999999999x1"), Err(TokenError::BadWeight));
}

#[test]
fn plate_token_bad_count_rejected() {
    assert_eq!(parse_plate_token("45x"), Err(TokenError::BadCount));
    assert_eq!(parse_plate_token("45xy"), Err(TokenError::BadCount));
    assert_eq!(parse_plate_token("45x99999999999"), Err(TokenError::BadCount));
}
