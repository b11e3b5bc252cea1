use sonoff_flasher::decimal::{parse_token, push_decimal};
use sonoff_flasher::file_range::{
    extract_file_range, get_header_range_from_file, map_results, read_file_range,
    read_file_ranges, serve_range_request, OpenedFile, RangedFileResult,
};
use sonoff_flasher::range::{parse_range_header, parse_single_range, Position, Range};

fn patterned_file(size: usize) -> OpenedFile {
    let content: Vec<u8> = (0..size).map(|i| (i % 256) as u8).collect();
    OpenedFile { content, size: size as u64 }
}

fn serve(header: &str, file: &Option<OpenedFile>, boundary: u64) -> (u16, String, String, Vec<u8>) {
    let range = parse_range_header(header.to_string());
    let r = read_file_ranges(range, file).into_response(boundary);
    (r.status, r.header_name, r.header_value, r.body)
}

fn chars(s: &str) -> Vec<char> {
    s.chars().collect()
}

#[test]
fn first_ten_bytes_of_patterned_file() {
    let file = Some(patterned_file(1000));
    let (status, name, value, body) = serve("bytes=0-9", &file, 1);
    assert_eq!(status, 206);
    assert_eq!(name, "Content-Range");
    assert_eq!(value, "bytes 0-9/1000");
    assert_eq!(body, (0u8..10).collect::<Vec<u8>>());
}

#[test]
fn open_ended_range_runs_to_end_of_file() {
    let file = Some(patterned_file(500));
    let (status, _, value, body) = serve("bytes=100-", &file, 1);
    assert_eq!(status, 206);
    assert_eq!(value, "bytes 100-499/500");
    assert_eq!(body.len(), 400);
    let expected: Vec<u8> = (100..500).map(|i| (i % 256) as u8).collect();
    assert_eq!(body, expected);
}

#[test]
fn two_ranges_become_a_multipart_body() {
    let range = parse_range_header("bytes=0-5,10-15".to_string());
    match &range {
        Range::Multiple(spans) => {
            assert_eq!(spans.len(), 2);
            assert_eq!(spans[0].from, Position::Fixed(0));
            assert_eq!(spans[0].to, Position::Fixed(5));
            assert_eq!(spans[1].from, Position::Fixed(10));
            assert_eq!(spans[1].to, Position::Fixed(15));
        }
        Range::One(_) => panic!("expected two spans"),
    }
    let file = Some(patterned_file(100));
    let r = read_file_ranges(range, &file).into_response(1700000000);
    assert_eq!(r.status, 200);
    assert_eq!(r.header_name, "Content-Type");
    assert_eq!(r.header_value, "multipart/byteranges; boundary=1700000000");
    let mut expected: Vec<u8> = Vec::new();
    expected.extend_from_slice(
        b"\n--1700000000\nContent-Type: application/octet-stream\nContent-Range: bytes 0-5/100\n\n",
    );
    expected.extend_from_slice(&[0, 1, 2, 3, 4, 5]);
    expected.extend_from_slice(
        b"\n--1700000000\nContent-Type: application/octet-stream\nContent-Range: bytes 10-15/100\n\n",
    );
    expected.extend_from_slice(&[10, 11, 12, 13, 14, 15]);
    expected.extend_from_slice(b"\n--1700000000--\n");
    assert_eq!(r.body, expected);
}

#[test]
fn upper_bound_is_clamped_to_file_size() {
    let file = Some(patterned_file(50));
    let (status, _, value, body) = serve("bytes=0-99999", &file, 1);
    assert_eq!(status, 206);
    assert_eq!(value, "bytes 0-49/50");
    assert_eq!(body.len(), 50);
}

#[test]
fn no_range_gives_empty_multipart_body() {
    let r = RangedFileResult::Multiple(vec![]).into_response(42);
    assert_eq!(r.status, 200);
    assert_eq!(r.header_value, "multipart/byteranges; boundary=42");
    assert_eq!(r.body, b"\n--42\n\n--42--\n".to_vec());
}

#[test]
fn parsing_is_deterministic() {
    for header in ["bytes=0-5,10-15", "bytes=7-", "", "items=-3", "bytes=a-b,,9"] {
        let a = parse_range_header(header.to_string());
        let b = parse_range_header(header.to_string());
        assert_eq!(format!("{:?}", a), format!("{:?}", b));
    }
}

#[test]
fn closed_range_matches_file_bytes() {
    let file = patterned_file(300);
    for (a, b) in [(0usize, 0usize), (3, 7), (250, 299), (0, 299)] {
        let header = format!("bytes={}-{}", a, b);
        let range = parse_range_header(header);
        let span = match range {
            Range::One(span) => span,
            Range::Multiple(_) => panic!("expected one span"),
        };
        let content = extract_file_range(&file.content, &span);
        assert_eq!(content, file.content[a..=b].to_vec());
    }
}

#[test]
fn header_without_equals_sign_is_whole_file_in_bytes() {
    match parse_range_header("nonsense".to_string()) {
        Range::One(span) => {
            assert_eq!(span.unit, "bytes");
            assert_eq!(span.from, Position::Start);
            assert_eq!(span.to, Position::End);
        }
        Range::Multiple(_) => panic!("expected one span"),
    }
}

#[test]
fn suffix_form_is_read_from_the_start() {
    match parse_range_header("bytes=-500".to_string()) {
        Range::One(span) => {
            assert_eq!(span.unit, "bytes");
            assert_eq!(span.from, Position::Start);
            assert_eq!(span.to, Position::Fixed(500));
        }
        Range::Multiple(_) => panic!("expected one span"),
    }
}

#[test]
fn unit_is_kept_for_every_span() {
    match parse_range_header("items=1-2,x-,4".to_string()) {
        Range::Multiple(spans) => {
            assert_eq!(spans.len(), 3);
            for s in &spans {
                assert_eq!(s.unit, "items");
            }
            assert_eq!(spans[1].from, Position::Start);
            assert_eq!(spans[1].to, Position::End);
            assert_eq!(spans[2].from, Position::Fixed(4));
            assert_eq!(spans[2].to, Position::End);
        }
        Range::One(_) => panic!("expected three spans"),
    }
}

#[test]
fn single_specifier_parsing() {
    let s = parse_single_range("100-".to_string(), "bytes".to_string());
    assert_eq!(s.from, Position::Fixed(100));
    assert_eq!(s.to, Position::End);
    let s = parse_single_range("+5-+7".to_string(), "bytes".to_string());
    assert_eq!(s.from, Position::Fixed(5));
    assert_eq!(s.to, Position::Fixed(7));
    let s = parse_single_range("99999999999999999999-3-4".to_string(), "bytes".to_string());
    assert_eq!(s.from, Position::Start);
    assert_eq!(s.to, Position::End);
}

#[test]
fn tokens() {
    assert_eq!(parse_token(&chars("0")), Some(0));
    assert_eq!(parse_token(&chars("+12")), Some(12));
    assert_eq!(parse_token(&chars("9223372036854775807")), Some(i64::MAX));
    assert_eq!(parse_token(&chars("9223372036854775808")), None);
    assert_eq!(parse_token(&chars("")), None);
    assert_eq!(parse_token(&chars("+")), None);
    assert_eq!(parse_token(&chars("1a")), None);
    assert_eq!(parse_token(&chars(" 1")), None);
}

#[test]
fn decimal_writing() {
    let mut s = String::from("n=");
    push_decimal(&mut s, 0);
    assert_eq!(s, "n=0");
    let mut s = String::new();
    push_decimal(&mut s, 18446744073709551615);
    assert_eq!(s, "18446744073709551615");
}

#[test]
fn missing_file_serves_empty_span() {
    let span = parse_single_range("-".to_string(), "bytes".to_string());
    let f = read_file_range(&span, &None);
    assert!(f.content.is_empty());
    assert_eq!(f.file_size, 0);
    assert_eq!(get_header_range_from_file(&f), "bytes 0-0/0");
}

#[test]
fn range_beyond_file_is_empty() {
    let file = Some(patterned_file(10));
    let (_, _, value, body) = serve("bytes=20-30", &file, 1);
    assert!(body.is_empty());
    assert_eq!(value, "bytes 20-9/10");
}

#[test]
fn reversed_range_reads_to_end() {
    let file = Some(patterned_file(10));
    let (_, _, _, body) = serve("bytes=6-2", &file, 1);
    assert_eq!(body, vec![6, 7, 8, 9]);
    let (_, _, _, body) = serve("bytes=6-5", &file, 1);
    assert!(body.is_empty());
}

#[test]
fn unreadable_bytes_become_zero() {
    let input: Vec<Result<u8, String>> = vec![Ok(5), Err("bad".to_string()), Ok(7)];
    assert_eq!(map_results(input), vec![5, 0, 7]);
}

#[test]
fn only_first_separators_split() {
    match parse_range_header("bytes=0-5=7".to_string()) {
        Range::One(span) => {
            assert_eq!(span.unit, "bytes");
            assert_eq!(span.from, Position::Fixed(0));
            assert_eq!(span.to, Position::End);
        }
        Range::Multiple(_) => panic!("expected one span"),
    }
}

#[test]
fn upper_bound_equal_to_size_is_clamped() {
    let file = Some(patterned_file(50));
    let (_, _, value, body) = serve("bytes=10-50", &file, 1);
    assert_eq!(value, "bytes 10-49/50");
    assert_eq!(body.len(), 40);
}

#[test]
fn request_without_range_header_gets_empty_multipart() {
    let file = Some(patterned_file(100));
    let r = serve_range_request(None, &file, 42);
    assert_eq!(r.status, 200);
    assert_eq!(r.header_name, "Content-Type");
    assert_eq!(r.header_value, "multipart/byteranges; boundary=42");
    assert_eq!(r.body, b"\n--42\n\n--42--\n".to_vec());
}

#[test]
fn request_with_range_header_is_served() {
    let file = Some(patterned_file(100));
    let r = serve_range_request(Some("bytes=3-5".to_string()), &file, 42);
    assert_eq!(r.status, 206);
    assert_eq!(r.header_name, "Content-Range");
    assert_eq!(r.header_value, "bytes 3-5/100");
    assert_eq!(r.body, vec![3, 4, 5]);
    let r = serve_range_request(Some("bytes=0-0,99-".to_string()), &file, 9);
    assert_eq!(r.status, 200);
    let mut expected: Vec<u8> = Vec::new();
    expected.extend_from_slice(
        b"\n--9\nContent-Type: application/octet-stream\nContent-Range: bytes 0-0/100\n\n",
    );
    expected.push(0);
    expected.extend_from_slice(
        b"\n--9\nContent-Type: application/octet-stream\nContent-Range: bytes 99-99/100\n\n",
    );
    expected.push(99);
    expected.extend_from_slice(b"\n--9--\n");
    assert_eq!(r.body, expected);
}

#[test]
fn request_for_missing_file_serves_empty_span() {
    let r = serve_range_request(Some("bytes=0-9".to_string()), &None, 1);
    assert_eq!(r.status, 206);
    assert_eq!(r.header_value, "bytes 0-0/0");
    assert!(r.body.is_empty());
}
