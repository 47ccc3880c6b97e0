use asc_hex::grid::{AscReader, GridError, Retained};

fn feed_all(reader: &mut AscReader, lines: &[&str]) -> Result<Vec<Retained>, GridError> {
    let mut out = Vec::new();
    for line in lines {
        out.extend(reader.feed_line(line)?);
    }
    Ok(out)
}

fn positions(cells: &[Retained]) -> Vec<(u64, u64, String)> {
    cells.iter().map(|c| (c.col, c.row, c.token.clone())).collect()
}

#[test]
fn header_then_one_retained_value() {
    let mut reader = AscReader::new();
    let lines = [
        "ncols 2",
        "nrows 1",
        "xllcorner 0",
        "yllcorner 0",
        "cellsize 1",
        "NODATA_value -1",
        "5 -1",
    ];
    let cells = feed_all(&mut reader, &lines).unwrap();
    assert_eq!(positions(&cells), vec![(0, 0, "5".to_string())]);
    assert_eq!(reader.header.ncols, 2);
    assert_eq!(reader.header.nrows, 1);
    assert_eq!(reader.header.xllcorner.as_deref(), Some("0"));
    assert_eq!(reader.header.yllcorner.as_deref(), Some("0"));
    assert_eq!(reader.header.cellsize.as_deref(), Some("1"));
    assert_eq!(reader.header.nodata, "-1");
    assert!(reader.in_body);
    // the nodata token only moved the cursor, which wrapped to the next row
    assert_eq!((reader.col, reader.row), (0, 1));
}

#[test]
fn malformed_count_fails() {
    let mut reader = AscReader::new();
    assert_eq!(reader.feed_line("ncols abc").err(), Some(GridError::Parse));
    assert_eq!(reader.header.ncols, 0);
    assert!(!reader.in_body);
}

#[test]
fn missing_header_value_fails() {
    let mut reader = AscReader::new();
    assert_eq!(reader.feed_line("cellsize").err(), Some(GridError::Parse));
    assert_eq!(reader.feed_line("NODATA_value").err(), Some(GridError::Parse));
    assert!(!reader.in_body);
}

#[test]
fn count_with_plus_sign_and_overflow() {
    let mut reader = AscReader::new();
    reader.feed_line("nrows +7").unwrap();
    assert_eq!(reader.header.nrows, 7);
    assert_eq!(reader.feed_line("ncols 18446744073709551616").err(), Some(GridError::Parse));
    reader.feed_line("ncols 18446744073709551615").unwrap();
    assert_eq!(reader.header.ncols, u64::MAX);
    assert_eq!(reader.feed_line("ncols -1").err(), Some(GridError::Parse));
}

#[test]
fn unknown_and_blank_header_lines_are_ignored() {
    let mut reader = AscReader::new();
    let cells = feed_all(&mut reader, &["", "   ", "comment here", "ncols 4"]).unwrap();
    assert!(cells.is_empty());
    assert_eq!(reader.header.ncols, 4);
    assert!(!reader.in_body);
    assert_eq!(reader.header.nodata, "-1");
    assert_eq!(reader.header.xllcorner, None);
}

#[test]
fn nodata_line_starts_the_body() {
    let mut reader = AscReader::new();
    let cells = feed_all(&mut reader, &["ncols 2", "NODATA_value -9999 trailing"]).unwrap();
    assert!(cells.is_empty());
    assert!(reader.in_body);
    assert_eq!(reader.header.nodata, "-9999");
    let cells = feed_all(&mut reader, &["-9999 0 3.5", "-1"]).unwrap();
    assert_eq!(
        positions(&cells),
        vec![(0, 1, "3.5".to_string()), (1, 1, "-1".to_string())]
    );
}

#[test]
fn rows_wrap_by_count_not_by_line() {
    let lines = ["ncols 3", "nrows 2", "NODATA_value -1", "1 2", "3 4 5 6"];
    let mut reader = AscReader::new();
    let cells = feed_all(&mut reader, &lines).unwrap();
    assert_eq!(
        positions(&cells),
        vec![
            (0, 0, "1".to_string()),
            (1, 0, "2".to_string()),
            (2, 0, "3".to_string()),
            (0, 1, "4".to_string()),
            (1, 1, "5".to_string()),
            (2, 1, "6".to_string()),
        ]
    );
    assert_eq!((reader.col, reader.row), (0, 2));

    // the same tokens on one line give the same cells
    let mut one = AscReader::new();
    let joined = feed_all(&mut one, &["ncols 3", "nrows 2", "NODATA_value -1", "1 2 3 4 5 6"]).unwrap();
    assert_eq!(positions(&joined), positions(&cells));
}

#[test]
fn skipped_tokens_advance_the_cursor() {
    let mut reader = AscReader::new();
    feed_all(&mut reader, &["ncols 5", "NODATA_value nd"]).unwrap();
    let cells = reader.feed_line("nd 0 nd").unwrap();
    assert!(cells.is_empty());
    assert_eq!((reader.col, reader.row), (3, 0));
    // "0.0" is not the literal "0": it is retained
    let cells = reader.feed_line("0.0").unwrap();
    assert_eq!(positions(&cells), vec![(3, 0, "0.0".to_string())]);
}

#[test]
fn body_tokens_are_not_checked_here() {
    let mut reader = AscReader::new();
    feed_all(&mut reader, &["ncols 2", "NODATA_value -1"]).unwrap();
    let cells = reader.feed_line("abc").unwrap();
    assert_eq!(positions(&cells), vec![(0, 0, "abc".to_string())]);
}

#[test]
fn zero_columns_wrap_every_token() {
    let mut reader = AscReader::new();
    feed_all(&mut reader, &["NODATA_value -1"]).unwrap();
    let cells = reader.feed_line("7 8").unwrap();
    assert_eq!(
        positions(&cells),
        vec![(0, 0, "7".to_string()), (0, 1, "8".to_string())]
    );
}

#[test]
fn feed_tokens_reads_a_token_vector() {
    let mut reader = AscReader::new();
    reader.feed_tokens(&vec!["ncols".to_string(), "3".to_string()]).unwrap();
    reader.feed_tokens(&vec!["NODATA_value".to_string(), "x".to_string()]).unwrap();
    let cells = reader.feed_tokens(&vec!["x".to_string(), "9".to_string()]).unwrap();
    assert_eq!(positions(&cells), vec![(1, 0, "9".to_string())]);
}
