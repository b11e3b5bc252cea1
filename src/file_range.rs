//! Extracting requested spans from a file's bytes and encoding them as an
//! HTTP response body.
use vstd::prelude::*;
use vstd::utf8::encode_utf8;

use crate::decimal::{
    decimal, is_digit, lemma_decimal_digits, lemma_decimal_token, push_decimal,
};
use crate::range::{
    parse_range_header,
    after_first, before_first, header_specifiers, header_spans, header_unit, lemma_find_from_at,
    lemma_split_without_separator, parsed_header, span_of, Position, Range, RangeBounding,
    RangeView, SpanView,
};

verus! {

/// A file as read for serving: its bytes, and its size as the file system
/// reported it.
pub struct OpenedFile {
    pub content: Vec<u8>,
    pub size: u64,
}

/// The bytes of one span of a file, with the span and the file's size.
pub struct RangedFile {
    pub content: Vec<u8>,
    pub range: RangeBounding,
    pub file_size: u64,
}

/// The served spans, shaped as the request's [`Range`] was.
pub enum RangedFileResult {
    One(RangedFile),
    Multiple(Vec<RangedFile>),
}

/// An encoded response: status code, its one header, and the body.
pub struct EncodedResponse {
    pub status: u16,
    pub header_name: String,
    pub header_value: String,
    pub body: Vec<u8>,
}

/// The mathematical value of a [`RangedFile`].
pub ghost struct RangedFileView {
    pub content: Seq<u8>,
    pub span: SpanView,
    pub file_size: nat,
}

impl View for RangedFile {
    type V = RangedFileView;

    open spec fn view(&self) -> RangedFileView {
        RangedFileView { content: self.content@, span: self.range@, file_size: self.file_size as nat }
    }
}

pub open spec fn files_view(v: Seq<RangedFile>) -> Seq<RangedFileView> {
    v.map_values(|f: RangedFile| f@)
}

impl RangedFileResult {
    /// The served spans, in order.
    pub open spec fn files(&self) -> Seq<RangedFileView> {
        match self {
            RangedFileResult::One(f) => seq![f@],
            RangedFileResult::Multiple(v) => files_view(v@),
        }
    }

    /// Every span's explicit offsets are non-negative.
    pub open spec fn valid(&self) -> bool {
        forall|i: int| 0 <= i < self.files().len() ==> (#[trigger] self.files()[i]).span.valid()
    }
}

/// The offset at which a span starts: an explicit lower offset, or 0.
pub open spec fn start_offset(p: Position) -> int {
    match p {
        Position::Fixed(v) => v as int,
        _ => 0,
    }
}

/// The bytes of `content` that `span` selects: from its start offset on, and
/// `to - start + 1` of them when `to` is an explicit offset that makes that
/// count non-negative. Nothing past the end of `content` is selected; a span
/// without an explicit upper offset, or whose upper offset lies more than one
/// below its start, runs to the end.
pub open spec fn extracted(content: Seq<u8>, span: SpanView) -> Seq<u8> {
    let start = start_offset(span.from);
    let rest = if start <= content.len() {
        content.subrange(start, content.len() as int)
    } else {
        Seq::empty()
    };
    match span.to {
        Position::Fixed(v) => {
            let n = v + 1 - start;
            if 0 <= n && n < rest.len() {
                rest.subrange(0, n)
            } else {
                rest
            }
        },
        _ => rest,
    }
}

/// What serving `sp` from `file` yields: the selected bytes and the file's
/// size, or no bytes and size 0 when the file could not be opened.
pub open spec fn served_span(file: Option<OpenedFile>, sp: SpanView) -> RangedFileView {
    match file {
        Some(f) => RangedFileView { content: extracted(f.content@, sp), span: sp, file_size: f.size as nat },
        None => RangedFileView { content: Seq::empty(), span: sp, file_size: 0 },
    }
}

/// The last offset that a `Content-Range` names: the requested upper offset,
/// clamped to the last byte of the file; the last byte itself when no upper
/// offset was given; 0 for an empty file.
pub open spec fn end_offset(to: Position, file_size: int) -> int {
    if file_size == 0 {
        0
    } else {
        match to {
            Position::Fixed(v) => if v < file_size {
                v as int
            } else {
                file_size - 1
            },
            _ => file_size - 1,
        }
    }
}

/// `<unit> <start>-<end>/<file_size>`.
pub open spec fn content_range_text(f: RangedFileView) -> Seq<char> {
    f.span.unit + " "@ + decimal(start_offset(f.span.from) as nat) + "-"@ + decimal(
        end_offset(f.span.to, f.file_size as int) as nat,
    ) + "/"@ + decimal(f.file_size)
}

/// The text that opens one part of a multipart body.
pub open spec fn part_head(boundary: Seq<char>, f: RangedFileView) -> Seq<char> {
    "\n--"@ + boundary + "\nContent-Type: application/octet-stream\nContent-Range: "@
        + content_range_text(f) + "\n\n"@
}

/// The parts of a multipart body, each opened by its head, in order.
pub open spec fn parts_body(boundary: Seq<char>, files: Seq<RangedFileView>) -> Seq<u8>
    decreases files.len(),
{
    if files.len() == 0 {
        Seq::empty()
    } else {
        parts_body(boundary, files.drop_last()) + encode_utf8(part_head(boundary, files.last()))
            + files.last().content
    }
}

/// The delimiter that closes a multipart body.
pub open spec fn closing_delimiter(boundary: Seq<char>) -> Seq<char> {
    "\n--"@ + boundary + "--\n"@
}

/// The boundary line that opens a body with no parts.
pub open spec fn opening_delimiter(boundary: Seq<char>) -> Seq<char> {
    "\n--"@ + boundary + "\n"@
}

/// A whole `multipart/byteranges` body. Without parts it holds just the
/// opening boundary line and the closing delimiter.
pub open spec fn multipart_body(boundary: Seq<char>, files: Seq<RangedFileView>) -> Seq<u8> {
    if files.len() == 0 {
        encode_utf8(opening_delimiter(boundary)) + encode_utf8(closing_delimiter(boundary))
    } else {
        parts_body(boundary, files) + encode_utf8(closing_delimiter(boundary))
    }
}

/// The header text `bytes=<a>-<b>`.
pub open spec fn closed_range_header(a: nat, b: nat) -> Seq<char> {
    "bytes="@ + decimal(a) + "-"@ + decimal(b)
}

/// The span `<a>-<b>` in bytes.
pub open spec fn closed_span(a: nat, b: nat) -> SpanView {
    SpanView { unit: "bytes"@, from: Position::Fixed(a as i64), to: Position::Fixed(b as i64) }
}

proof fn lemma_no_separator_in_decimal(n: nat, c: char)
    requires
        !is_digit(c),
    ensures
        forall|j: int| 0 <= j < decimal(n).len() ==> decimal(n)[j] != c,
{
    lemma_decimal_digits(n);
    assert forall|j: int| 0 <= j < decimal(n).len() implies decimal(n)[j] != c by {
        assert(is_digit(decimal(n)[j]));
    }
}

/// Serving `bytes=<a>-<b>` with `a <= b` inside the file returns exactly the
/// file's bytes at offsets `a` through `b`: the header parses to that single
/// span, extracting it from the file's bytes yields them, and its
/// `Content-Range` is `bytes <a>-<b>/<file size>`.
pub proof fn lemma_closed_range_round_trip(a: nat, b: nat, content: Seq<u8>)
    requires
        a <= b < content.len(),
        b <= i64::MAX,
    ensures
        parsed_header(closed_range_header(a, b)) == RangeView::One(closed_span(a, b)),
        extracted(content, closed_span(a, b)) == content.subrange(a as int, b as int + 1),
        extracted(content, closed_span(a, b)).len() == b - a + 1,
        content_range_text(
            (RangedFileView {
                content: content.subrange(a as int, b as int + 1),
                span: closed_span(a, b),
                file_size: content.len(),
            }),
        ) == "bytes "@ + decimal(a) + "-"@ + decimal(b) + "/"@ + decimal(content.len()),
{
    reveal_strlit("bytes ");
    reveal_strlit(" ");
    reveal_strlit("bytes=");
    reveal_strlit("bytes");
    reveal_strlit("-");
    let h = closed_range_header(a, b);
    let da = decimal(a);
    let db = decimal(b);
    let t = da + "-"@ + db;
    lemma_decimal_digits(a);
    lemma_decimal_digits(b);
    lemma_no_separator_in_decimal(a, '=');
    lemma_no_separator_in_decimal(b, '=');
    lemma_no_separator_in_decimal(a, ',');
    lemma_no_separator_in_decimal(b, ',');
    lemma_no_separator_in_decimal(a, '-');
    assert(h =~= "bytes="@ + t);
    lemma_find_from_at(h, '=', 0, 5);
    assert(header_unit(h) =~= "bytes"@);
    assert(after_first(h, '=') =~= t);
    assert forall|j: int| 0 <= j < t.len() implies t[j] != ',' by {
        if j < da.len() {
            assert(t[j] == da[j]);
        } else if j > da.len() {
            assert(t[j] == db[j - da.len() - 1]);
        }
    }
    lemma_split_without_separator(t, ',');
    assert(header_specifiers(h) == seq![t]);
    assert forall|j: int| 0 <= j < da.len() implies t[j] != '-' by {
        assert(t[j] == da[j]);
    }
    lemma_find_from_at(t, '-', 0, da.len() as int);
    assert(before_first(t, '-') =~= da);
    assert(after_first(t, '-') =~= db);
    lemma_decimal_token(a);
    lemma_decimal_token(b);
    assert(span_of("bytes"@, t) == closed_span(a, b));
    assert(header_spans(h) =~= seq![closed_span(a, b)]);
    let rest = content.subrange(a as int, content.len() as int);
    let n = b + 1 - a;
    if n < rest.len() {
        assert(rest.subrange(0, n) =~= content.subrange(a as int, b as int + 1));
    } else {
        assert(rest =~= content.subrange(a as int, b as int + 1));
    }
}

/// Serving the header `bytes=<a>-<b>` with `a <= b` inside an opened file
/// yields one span holding exactly the file's bytes at offsets `a` through `b`,
/// together with the file's size (see [`read_file_ranges`]).
pub proof fn lemma_closed_range_served(a: nat, b: nat, f: OpenedFile)
    requires
        a <= b < f.content@.len(),
        b <= i64::MAX,
    ensures
        parsed_header(closed_range_header(a, b)) is One,
        parsed_header(closed_range_header(a, b)).spans().map_values(
            |sp: SpanView| served_span(Some(f), sp),
        ) == seq![
            RangedFileView {
                content: f.content@.subrange(a as int, b as int + 1),
                span: closed_span(a, b),
                file_size: f.size as nat,
            },
        ],
{
    lemma_closed_range_round_trip(a, b, f.content@);
    let spans = parsed_header(closed_range_header(a, b)).spans();
    assert(spans =~= seq![closed_span(a, b)]);
    assert(spans.map_values(|sp: SpanView| served_span(Some(f), sp)) =~= seq![
        RangedFileView {
            content: f.content@.subrange(a as int, b as int + 1),
            span: closed_span(a, b),
            file_size: f.size as nat,
        },
    ]);
}

/// Turns per-byte read outcomes into bytes: a byte that could not be read
/// becomes 0, so the length is kept.
pub fn map_results<E>(input: Vec<Result<u8, E>>) -> (r: Vec<u8>)
    ensures
        r@.len() == input@.len(),
        forall|i: int|
            0 <= i < input@.len() ==> #[trigger] r@[i] == match input@[i] {
                Ok(b) => b,
                Err(_) => 0u8,
            },
{
    let mut r: Vec<u8> = Vec::new();
    let mut i: usize = 0;
    while i < input.len()
        invariant
            i <= input@.len(),
            r@.len() == i,
            forall|j: int|
                0 <= j < i ==> #[trigger] r@[j] == match input@[j] {
                    Ok(b) => b,
                    Err(_) => 0u8,
                },
        decreases input@.len() - i,
    {
        let b = match &input[i] {
            Ok(b) => *b,
            Err(_) => 0u8,
        };
        r.push(b);
        i = i + 1;
    }
    r
}

/// A copy of `s[a..b]`.
fn slice_bytes(s: &Vec<u8>, a: usize, b: usize) -> (r: Vec<u8>)
    requires
        a <= b <= s@.len(),
    ensures
        r@ == s@.subrange(a as int, b as int),
{
    let mut r: Vec<u8> = Vec::new();
    let mut i: usize = a;
    while i < b
        invariant
            a <= i <= b <= s@.len(),
            r@ == s@.subrange(a as int, i as int),
        decreases b - i,
    {
        r.push(s[i]);
        i = i + 1;
        assert(r@ =~= s@.subrange(a as int, i as int));
    }
    r
}

/// The bytes of `content` that `range` selects (see [`extracted`]).
pub fn extract_file_range(content: &Vec<u8>, range: &RangeBounding) -> (r: Vec<u8>)
    requires
        range@.valid(),
    ensures
        r@ == extracted(content@, range@),
{
    let len = content.len();
    let from: u64 = match range.from {
        Position::Fixed(v) => v as u64,
        _ => 0,
    };
    let start: usize = if from < len as u64 {
        from as usize
    } else {
        len
    };
    let end: usize = match range.to {
        Position::Fixed(v) => {
            let n: i128 = v as i128 + 1 - from as i128;
            if from > len as u64 || n < 0 || n >= (len - start) as i128 {
                len
            } else {
                start + n as usize
            }
        },
        _ => len,
    };
    proof {
        let rest = content@.subrange(start as int, len as int);
        if from >= len {
            assert(rest =~= Seq::<u8>::empty());
        }
        if let Position::Fixed(v) = range.to {
            let n = v + 1 - from;
            if from <= len && 0 <= n && n < rest.len() {
                assert(rest.subrange(0, n) =~= content@.subrange(start as int, end as int));
            }
        }
    }
    slice_bytes(content, start, end)
}

/// A copy of a span, keeping its unit and endpoints.
fn copy_bounding(b: &RangeBounding) -> (r: RangeBounding)
    ensures
        r@ == b@,
{
    RangeBounding { unit: b.unit.clone(), from: b.from, to: b.to }
}

/// Serves one span from `file`. A file that could not be opened (`None`)
/// serves no bytes and counts as empty.
pub fn read_file_range(range: &RangeBounding, file: &Option<OpenedFile>) -> (r: RangedFile)
    requires
        range@.valid(),
    ensures
        r.range@ == range@,
        file matches Some(f) ==> r.content@ == extracted(f.content@, range@) && r.file_size
            == f.size,
        file is None ==> r.content@.len() == 0 && r.file_size == 0,
{
    match file {
        Some(f) => RangedFile {
            content: extract_file_range(&f.content, range),
            range: copy_bounding(range),
            file_size: f.size,
        },
        None => RangedFile { content: Vec::new(), range: copy_bounding(range), file_size: 0 },
    }
}

proof fn lemma_files_served(r: &RangedFileResult, range: RangeView, file: Option<OpenedFile>)
    requires
        r.files().len() == range.spans().len(),
        forall|i: int| 0 <= i < r.files().len() ==> (#[trigger] r.files()[i]).span == range.spans()[i],
        forall|i: int|
            0 <= i < r.files().len() ==> match file {
                Some(f) => (#[trigger] r.files()[i]).content == extracted(
                    f.content@,
                    range.spans()[i],
                ) && r.files()[i].file_size == f.size,
                None => (#[trigger] r.files()[i]).content.len() == 0 && r.files()[i].file_size
                    == 0,
            },
    ensures
        r.files() == range.spans().map_values(|sp: SpanView| served_span(file, sp)),
{
    let want = range.spans().map_values(|sp: SpanView| served_span(file, sp));
    assert forall|i: int| 0 <= i < r.files().len() implies #[trigger] r.files()[i] == want[i] by {
        let fi = r.files()[i];
        assert(fi.span == range.spans()[i]);
        if file is None {
            assert(fi.content =~= Seq::<u8>::empty());
        }
    }
    assert(r.files() =~= want);
}

/// Serves every span of `range` from `file`, in order, keeping the shape of
/// the request (one span or several).
pub fn read_file_ranges(range: Range, file: &Option<OpenedFile>) -> (r: RangedFileResult)
    requires
        range@.valid(),
    ensures
        range is One <==> r is One,
        r.files().len() == range@.spans().len(),
        forall|i: int|
            0 <= i < r.files().len() ==> (#[trigger] r.files()[i]).span == range@.spans()[i],
        forall|i: int|
            0 <= i < r.files().len() ==> match file {
                Some(f) => (#[trigger] r.files()[i]).content == extracted(
                    f.content@,
                    range@.spans()[i],
                ) && r.files()[i].file_size == f.size,
                None => (#[trigger] r.files()[i]).content.len() == 0 && r.files()[i].file_size
                    == 0,
            },
        r.files() == range@.spans().map_values(|sp: SpanView| served_span(*file, sp)),
        r.valid(),
{
    match range {
        Range::One(b) => {
            assert(range@.spans()[0] == b@);
            let r = RangedFileResult::One(read_file_range(&b, file));
            proof {
                lemma_files_served(&r, range@, *file);
            }
            r
        },
        Range::Multiple(ranges) => {
            let mut out: Vec<RangedFile> = Vec::new();
            let mut i: usize = 0;
            while i < ranges.len()
                invariant
                    range == Range::Multiple(ranges),
                    range@.valid(),
                    i <= ranges@.len(),
                    out@.len() == i,
                    forall|j: int| 0 <= j < i ==> (#[trigger] out@[j]).range@ == ranges@[j]@,
                    forall|j: int|
                        0 <= j < i ==> match file {
                            Some(f) => (#[trigger] out@[j]).content@ == extracted(
                                f.content@,
                                ranges@[j]@,
                            ) && out@[j].file_size == f.size,
                            None => (#[trigger] out@[j]).content@.len() == 0 && out@[j].file_size
                                == 0,
                        },
                decreases ranges@.len() - i,
            {
                assert(range@.spans()[i as int] == ranges@[i as int]@);
                out.push(read_file_range(&ranges[i], file));
                i = i + 1;
            }
            let r = RangedFileResult::Multiple(out);
            assert forall|j: int| 0 <= j < r.files().len() implies (#[trigger] r.files()[j]).span
                == range@.spans()[j] by {
                assert(r.files()[j] == out@[j]@);
                assert(range@.spans()[j] == ranges@[j]@);
            }
            assert forall|j: int| 0 <= j < r.files().len() implies (#[trigger] r.files()[j]).span.valid() by {
                assert(r.files()[j] == out@[j]@);
                assert(range@.spans()[j] == ranges@[j]@);
            }
            proof {
                lemma_files_served(&r, range@, *file);
            }
            r
        },
    }
}

/// The `Content-Range` value of a served span:
/// `<unit> <start>-<end>/<file_size>`, the end clamped to the file's last byte.
pub fn get_header_range_from_file(file: &RangedFile) -> (r: String)
    requires
        file.range@.valid(),
    ensures
        r@ == content_range_text(file@),
{
    let from: u64 = match file.range.from {
        Position::Fixed(v) => v as u64,
        _ => 0,
    };
    let size = file.file_size;
    let to: u64 = if size == 0 {
        0
    } else {
        match file.range.to {
            Position::Fixed(v) => if (v as u64) < size {
                v as u64
            } else {
                size - 1
            },
            _ => size - 1,
        }
    };
    let mut r = file.range.unit.clone();
    proof {
        reveal_strlit(" ");
        reveal_strlit("-");
        reveal_strlit("/");
    }
    r.append(" ");
    push_decimal(&mut r, from);
    r.append("-");
    push_decimal(&mut r, to);
    r.append("/");
    push_decimal(&mut r, size);
    r
}

/// Appends `bytes` to `body`.
fn append_bytes(body: &mut Vec<u8>, bytes: &Vec<u8>)
    ensures
        final(body)@ == old(body)@ + bytes@,
{
    let ghost start = body@;
    let mut i: usize = 0;
    while i < bytes.len()
        invariant
            i <= bytes@.len(),
            body@ == start + bytes@.subrange(0, i as int),
        decreases bytes@.len() - i,
    {
        body.push(bytes[i]);
        i = i + 1;
        assert(body@ =~= start + bytes@.subrange(0, i as int));
    }
    assert(bytes@.subrange(0, i as int) =~= bytes@);
}

/// Appends the UTF-8 encoding of `s` to `body`.
fn append_text(body: &mut Vec<u8>, s: &String)
    ensures
        final(body)@ == old(body)@ + encode_utf8(s@),
{
    let bytes = s.as_str().as_bytes_vec();
    append_bytes(body, &bytes);
}

impl RangedFileResult {
    /// Encodes the served spans as a response.
    ///
    /// One span gives status 206, a `Content-Range` header and the span's bytes
    /// as the body. Several spans (or none) give status 200 and a
    /// `multipart/byteranges` body whose boundary is `boundary_secs` written
    /// in decimal: each part is opened by the boundary line and its own
    /// `Content-Type` and `Content-Range` lines, and a closing delimiter ends
    /// the body. With no spans the body is the boundary line and the closing
    /// delimiter alone.
    pub fn into_response(self, boundary_secs: u64) -> (r: EncodedResponse)
        requires
            self.valid(),
        ensures
            self is One ==> r.status == 206 && r.header_name@ == "Content-Range"@
                && r.header_value@ == content_range_text(self.files()[0]) && r.body@ == self.files()[0].content,
            self is Multiple ==> r.status == 200 && r.header_name@ == "Content-Type"@
                && r.header_value@ == "multipart/byteranges; boundary="@ + decimal(boundary_secs as nat)
                && r.body@ == multipart_body(decimal(boundary_secs as nat), self.files()),
    {
        match self {
            RangedFileResult::One(file) => {
                assert(self.files()[0].span.valid());
                let value = get_header_range_from_file(&file);
                EncodedResponse {
                    status: 206,
                    header_name: "Content-Range".to_owned(),
                    header_value: value,
                    body: file.content,
                }
            },
            RangedFileResult::Multiple(files) => {
                let mut boundary = String::new();
                push_decimal(&mut boundary, boundary_secs);
                assert(boundary@ =~= decimal(boundary_secs as nat));
                let ghost b = boundary@;
                let ghost fv = files_view(files@);
                let mut body: Vec<u8> = Vec::new();
                let mut i: usize = 0;
                assert(fv.subrange(0, 0) =~= Seq::<RangedFileView>::empty());
                while i < files.len()
                    invariant
                        self == RangedFileResult::Multiple(files),
                        self.valid(),
                        fv == files_view(files@),
                        b == boundary@,
                        i <= files@.len(),
                        body@ == parts_body(b, fv.subrange(0, i as int)),
                    decreases files@.len() - i,
                {
                    let file = &files[i];
                    assert(self.files()[i as int] == file@);
                    let mut head = "\n--".to_owned();
                    head.append(boundary.as_str());
                    head.append("\nContent-Type: application/octet-stream\nContent-Range: ");
                    let range_text = get_header_range_from_file(file);
                    head.append(range_text.as_str());
                    head.append("\n\n");
                    append_text(&mut body, &head);
                    append_bytes(&mut body, &file.content);
                    proof {
                        let next = fv.subrange(0, i + 1);
                        assert(next.drop_last() =~= fv.subrange(0, i as int));
                        assert(next.last() == file@);
                    }
                    i = i + 1;
                }
                assert(fv.subrange(0, i as int) =~= fv);
                if files.len() == 0 {
                    let mut opening = "\n--".to_owned();
                    opening.append(boundary.as_str());
                    opening.append("\n");
                    append_text(&mut body, &opening);
                    assert(body@ =~= encode_utf8(opening_delimiter(b)));
                }
                let mut closing = "\n--".to_owned();
                closing.append(boundary.as_str());
                closing.append("--\n");
                append_text(&mut body, &closing);
                let mut value = "multipart/byteranges; boundary=".to_owned();
                value.append(boundary.as_str());
                EncodedResponse {
                    status: 200,
                    header_name: "Content-Type".to_owned(),
                    header_value: value,
                    body,
                }
            },
        }
    }
}

/// Answers a request for the firmware: without a `Range` header the empty
/// multipart response; with one, its spans served from `file` and encoded
/// (see [`RangedFileResult::into_response`]).
pub fn serve_range_request(raw: Option<String>, file: &Option<OpenedFile>, boundary_secs: u64) -> (r: EncodedResponse)
    ensures
        match raw {
            None => r.status == 200 && r.header_name@ == "Content-Type"@ && r.header_value@
                == "multipart/byteranges; boundary="@ + decimal(boundary_secs as nat) && r.body@
                == multipart_body(decimal(boundary_secs as nat), Seq::empty()),
            Some(h) => match parsed_header(h@) {
                RangeView::One(sp) => r.status == 206 && r.header_name@ == "Content-Range"@
                    && r.header_value@ == content_range_text(served_span(*file, sp)) && r.body@
                    == served_span(*file, sp).content,
                RangeView::Multiple(sps) => r.status == 200 && r.header_name@ == "Content-Type"@
                    && r.header_value@ == "multipart/byteranges; boundary="@ + decimal(
                    boundary_secs as nat,
                ) && r.body@ == multipart_body(
                    decimal(boundary_secs as nat),
                    sps.map_values(|sp: SpanView| served_span(*file, sp)),
                ),
            },
        },
{
    match raw {
        None => {
            let empty: Vec<RangedFile> = Vec::new();
            let result = RangedFileResult::Multiple(empty);
            assert(result.files() =~= Seq::<RangedFileView>::empty());
            result.into_response(boundary_secs)
        },
        Some(h) => {
            let range = parse_range_header(h);
            let result = read_file_ranges(range, file);
            result.into_response(boundary_secs)
        },
    }
}

} // verus!
