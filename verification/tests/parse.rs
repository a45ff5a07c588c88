use rsomics_epps_singleton::tokens::{parse_buffer, token_spans, InputError};

fn values(buf: &[u8]) -> Result<Vec<f64>, String> {
    let spans = parse_buffer(buf).map_err(|e| e.message())?;
    let mut out = Vec::new();
    for (s, e) in spans {
        let v: f64 = fast_float2::parse(&buf[s..e]).map_err(|_| "not a number".to_string())?;
        out.push(v);
    }
    Ok(out)
}

#[test]
fn parses_newline_column() {
    assert_eq!(values(b"1\n2.5\n-3\n").unwrap(), vec![1.0, 2.5, -3.0]);
}

#[test]
fn parses_mixed_whitespace() {
    assert_eq!(
        values(b"  1.0  2.0\t3.0\r\n4.0 ").unwrap(),
        vec![1.0, 2.0, 3.0, 4.0]
    );
}

#[test]
fn rejects_non_numeric() {
    assert!(values(b"1\nfoo\n").is_err());
}

#[test]
fn rejects_empty() {
    assert!(parse_buffer(b"  \n\t\n").is_err());
}

#[test]
fn spans_of_newline_column() {
    assert_eq!(parse_buffer(b"1\n2.5\n-3\n").unwrap(), vec![(0, 1), (2, 5), (6, 8)]);
}

#[test]
fn spans_of_mixed_whitespace() {
    assert_eq!(
        token_spans(b"  1.0  2.0\t3.0\r\n4.0 "),
        vec![(2, 5), (7, 10), (11, 14), (16, 19)]
    );
}

#[test]
fn whitespace_kind_does_not_change_tokens() {
    assert_eq!(token_spans(b"ab c\td"), token_spans(b"xy\nz\rw"));
    assert_eq!(token_spans(b"1 2\x0c3"), vec![(0, 1), (2, 3), (4, 5)]);
}

#[test]
fn vertical_tab_is_not_whitespace() {
    assert_eq!(token_spans(b"1\x0b2"), vec![(0, 3)]);
}

#[test]
fn token_at_end_without_newline() {
    assert_eq!(token_spans(b"7"), vec![(0, 1)]);
    assert_eq!(token_spans(b""), Vec::<(usize, usize)>::new());
}

#[test]
fn empty_buffer_reports_no_values() {
    let err = parse_buffer(b"").unwrap_err();
    assert_eq!(err, InputError::NoValues);
    assert_eq!(err.message(), "no values in input");
}

#[test]
fn tokens_concatenate_across_whitespace() {
    let a: &[u8] = b"1 22";
    let b: &[u8] = b"-3\t4e5";
    let ta = parse_buffer(a).unwrap();
    let tb = parse_buffer(b).unwrap();
    let mut joined_buf = Vec::new();
    joined_buf.extend_from_slice(b" \n");
    joined_buf.extend_from_slice(a);
    joined_buf.extend_from_slice(b"\r\n");
    joined_buf.extend_from_slice(b);
    joined_buf.extend_from_slice(b"\t");
    let mut expected: Vec<(usize, usize)> = ta.iter().map(|&(s, e)| (s + 2, e + 2)).collect();
    let off = 2 + a.len() + 2;
    expected.extend(tb.iter().map(|&(s, e)| (s + off, e + off)));
    assert_eq!(parse_buffer(&joined_buf).unwrap(), expected);
}
