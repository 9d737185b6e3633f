//! Bounded, line-numbered text scanning for the `read_file` tool.
//!
//! The scanner is independent from filesystem I/O: the caller feeds it the bytes of a file
//! in chunks, then renders the resulting line window. Its behaviour is the byte-by-byte
//! state machine `feed_spec` / `finish_spec`, so the outcome never depends on where the
//! chunk boundaries fall (`lemma_feed_concat`).
use vstd::prelude::*;
use vstd::utf8::*;

use crate::text::{lemma_decimal_digits, lemma_encode_concat, decimal, decimal_len, push_decimal, signed_decimal, push_signed_decimal, is_utf8, string_from_utf8};

verus! {

/// Lines returned when the caller does not pass `limit`.
pub const DEFAULT_MAX_LINES: usize = 500;

/// What the model is told about a file that exists but is empty.
pub const EMPTY_FILE_NOTE: &'static str = "[READ EMPTY: the file exists but has no content]";

/// Longest single line that can be shown. Longer lines are a hard error.
pub const MAX_LINE_BYTES: usize = 32 * 1024;

/// Total rendered output budget, counted in bytes of what the model receives.
pub const MAX_OUTPUT_BYTES: usize = 256 * 1024;

/// Minimum width of the right-aligned line number.
pub const PREFIX_WIDTH: usize = 6;

/// Bytes of the `→` separator between a line number and the line text.
pub const LINE_ARROW_BYTES: usize = 3;

/// Why a scan stopped before the end of the file.
#[derive(Clone, Copy, Debug, PartialEq, Eq, Structural)]
pub enum ReadStop {
    LineLimit,
    ByteBudget,
}

impl ReadStop {
    pub open spec fn reason_text(self) -> Seq<char> {
        match self {
            ReadStop::LineLimit => "line limit reached"@,
            ReadStop::ByteBudget => "output byte budget reached"@,
        }
    }

    /// Human-readable reason used in the truncation marker.
    pub fn reason(self) -> (reason: &'static str)
        ensures
            reason@ == self.reason_text(),
    {
        match self {
            ReadStop::LineLimit => "line limit reached",
            ReadStop::ByteBudget => "output byte budget reached",
        }
    }
}

/// A line-level failure that aborts the read.
#[derive(Clone, Copy, Debug, PartialEq, Eq, Structural)]
pub enum ReadError {
    LineTooLong { line: usize, bytes: usize },
    NotUtf8 { line: usize },
}

impl ReadError {
    pub open spec fn model_message_text(self, path: Seq<char>) -> Seq<char> {
        match self {
            ReadError::NotUtf8 { line } => "`"@ + path
                + "` is not valid UTF-8 text (first invalid line: "@ + decimal(line as nat)
                + "); it may be a binary file. Use view_image for images, or exec to inspect binary content."@,
            ReadError::LineTooLong { line, bytes } => "line "@ + decimal(line as nat) + " of `"@
                + path + "` is "@ + decimal(bytes as nat) + " bytes, which exceeds the "@
                + decimal(MAX_LINE_BYTES as nat)
                + "-byte per-line limit; use exec to inspect or split it."@,
        }
    }

    /// Converts a scanner failure into the model-facing error used by `read_file`.
    pub fn model_message(self, path: &str) -> (message: String)
        ensures
            message@ == self.model_message_text(path@),
    {
        let mut message = String::new();
        match self {
            ReadError::NotUtf8 { line } => {
                message.append("`");
                message.append(path);
                message.append("` is not valid UTF-8 text (first invalid line: ");
                push_decimal(&mut message, line as u64);
                message.append(
                    "); it may be a binary file. Use view_image for images, or exec to inspect binary content.",
                );
            },
            ReadError::LineTooLong { line, bytes } => {
                message.append("line ");
                push_decimal(&mut message, line as u64);
                message.append(" of `");
                message.append(path);
                message.append("` is ");
                push_decimal(&mut message, bytes as u64);
                message.append(" bytes, which exceeds the ");
                push_decimal(&mut message, MAX_LINE_BYTES as u64);
                message.append("-byte per-line limit; use exec to inspect or split it.");
            },
        }
        message
    }
}

/// Abstract numbered line: its 1-based number and its text.
pub struct LineView {
    pub number: nat,
    pub text: Seq<char>,
}

/// One selected line of the file, with its 1-based line number.
#[derive(Clone, Debug, PartialEq, Eq)]
pub struct NumberedLine {
    number: usize,
    text: String,
}

impl View for NumberedLine {
    type V = LineView;

    closed spec fn view(&self) -> LineView {
        LineView { number: self.number as nat, text: self.text@ }
    }
}

impl NumberedLine {
    /// 1-based line number in the file.
    pub fn number(&self) -> (number: usize)
        ensures
            number == self@.number,
    {
        self.number
    }

    /// Line text without its terminator.
    pub fn text(&self) -> (text: String)
        ensures
            text@ == self@.text,
    {
        self.text.clone()
    }

    /// Bytes this line adds to the model-facing output: its rendered `cat -n` form and the
    /// newline that follows it.
    pub fn rendered_len(&self) -> (len: usize)
        requires
            encode_utf8(self@.text).len() + 24 <= usize::MAX,
        ensures
            len == rendered_len(self@),
            len == encode_utf8(render_line(self@)).len() + 1,
    {
        proof {
            lemma_render_line_bytes(self@);
        }
        prefix_len(self.number) + self.text.as_str().len() + 1
    }
}

/// Byte width of the number column including the arrow.
pub open spec fn prefix_len_spec(number: nat) -> nat {
    let digits = decimal(number).len();
    ((if digits < PREFIX_WIDTH { PREFIX_WIDTH as nat } else { digits }) + LINE_ARROW_BYTES) as nat
}

/// Bytes that a line contributes to the model-facing output, newline included.
pub open spec fn rendered_len(line: LineView) -> nat {
    prefix_len_spec(line.number) + encode_utf8(line.text).len() + 1
}

/// Sum of `rendered_len` over lines.
pub open spec fn total_rendered(lines: Seq<LineView>) -> nat
    decreases lines.len(),
{
    if lines.len() == 0 {
        0
    } else {
        total_rendered(lines.drop_last()) + rendered_len(lines.last())
    }
}

fn prefix_len(number: usize) -> (len: usize)
    ensures
        len == prefix_len_spec(number as nat),
        len <= 23,
{
    let digits = decimal_len(number as u64);
    let width = if digits < PREFIX_WIDTH {
        PREFIX_WIDTH
    } else {
        digits
    };
    width + LINE_ARROW_BYTES
}

/// Removes a trailing carriage return and, on the first line, a leading byte order mark.
pub open spec fn strip_line(index: nat, bytes: Seq<u8>) -> Seq<u8> {
    let t = if bytes.len() > 0 && bytes.last() == 0x0d {
        bytes.drop_last()
    } else {
        bytes
    };
    if index == 0 && t.len() >= 3 && t[0] == 0xef && t[1] == 0xbb && t[2] == 0xbf {
        t.skip(3)
    } else {
        t
    }
}

proof fn lemma_strip_valid(index: nat, bytes: Seq<u8>)
    requires
        valid_utf8(bytes),
    ensures
        valid_utf8(strip_line(index, bytes)),
        strip_line(index, bytes).len() <= bytes.len(),
{
    let t = if bytes.len() > 0 && bytes.last() == 0x0d {
        bytes.drop_last()
    } else {
        bytes
    };
    if bytes.len() > 0 && bytes.last() == 0x0d {
        let n = bytes.len() as int;
        is_char_boundary_iff_not_is_continuation_byte(bytes, n - 1);
        valid_utf8_split(bytes, n - 1);
        assert(bytes.subrange(0, n - 1) =~= bytes.drop_last());
    }
    assert(valid_utf8(t));
    if index == 0 && t.len() >= 3 && t[0] == 0xef && t[1] == 0xbb && t[2] == 0xbf {
        assert(pop_first_scalar(t) =~= t.skip(3));
    }
}

/// Scanner limits.
pub struct ScanLimits {
    pub first_line: nat,
    pub max_lines: nat,
    pub max_line_bytes: nat,
    pub max_output_bytes: nat,
}

/// Abstract scanner state.
pub struct ScanView {
    pub limits: ScanLimits,
    /// Zero-based index of the line being accumulated.
    pub line_index: nat,
    /// Retained bytes of the current line, at most `max_line_bytes + 1` of them.
    pub partial: Seq<u8>,
    /// Full byte length of the current line.
    pub partial_len: nat,
    pub lines_seen: nat,
    pub selected: Seq<LineView>,
    pub output_bytes: nat,
    pub stop: Option<ReadStop>,
    /// Bytes taken in so far, for overflow bookkeeping.
    pub fed: nat,
}

/// Abstract result of a scan.
pub struct OutcomeView {
    pub lines: Seq<LineView>,
    pub stop: Option<ReadStop>,
    pub lines_seen: nat,
}

pub open spec fn initial_scan(limits: ScanLimits) -> ScanView {
    ScanView {
        limits,
        line_index: 0,
        partial: seq![],
        partial_len: 0,
        lines_seen: 0,
        selected: seq![],
        output_bytes: 0,
        stop: None,
        fed: 0,
    }
}

/// Takes in one byte that is not a newline.
pub open spec fn append_byte(s: ScanView, b: u8) -> ScanView {
    ScanView {
        partial: if s.partial.len() < s.limits.max_line_bytes + 1 {
            s.partial.push(b)
        } else {
            s.partial
        },
        partial_len: s.partial_len + 1,
        fed: s.fed + 1,
        ..s
    }
}

/// Closes the current line: skip it before the window, reject it when too long or not
/// UTF-8, otherwise select it while the byte budget allows and stop at the line limit.
pub open spec fn finish_line_spec(s: ScanView) -> (ScanView, Result<(), ReadError>) {
    let index = s.line_index;
    let t = ScanView { line_index: index + 1, lines_seen: s.lines_seen + 1, ..s };
    if index < s.limits.first_line {
        (ScanView { partial: seq![], partial_len: 0, ..t }, Ok(()))
    } else if s.partial_len > s.limits.max_line_bytes {
        (t, Err(ReadError::LineTooLong { line: (index + 1) as usize, bytes: s.partial_len as usize }))
    } else if !valid_utf8(s.partial) {
        (ScanView { partial: seq![], ..t }, Err(ReadError::NotUtf8 { line: (index + 1) as usize }))
    } else {
        let line = LineView { number: index + 1, text: decode_utf8(strip_line(index, s.partial)) };
        let u = ScanView { partial: seq![], partial_len: 0, ..t };
        if s.selected.len() == 0 || s.output_bytes + rendered_len(line) <= s.limits.max_output_bytes {
            let selected = s.selected.push(line);
            (
                ScanView {
                    selected,
                    output_bytes: s.output_bytes + rendered_len(line),
                    stop: if selected.len() >= s.limits.max_lines {
                        Some(ReadStop::LineLimit)
                    } else {
                        s.stop
                    },
                    ..u
                },
                Ok(()),
            )
        } else {
            (ScanView { stop: Some(ReadStop::ByteBudget), ..u }, Ok(()))
        }
    }
}

/// Feeds a chunk byte by byte. Bytes after a stop, or after a failing line, are ignored.
pub open spec fn feed_spec(s: ScanView, chunk: Seq<u8>) -> (ScanView, Result<(), ReadError>)
    decreases chunk.len(),
{
    if s.stop is Some || chunk.len() == 0 {
        (s, Ok(()))
    } else if chunk[0] == 0x0a {
        let (s1, r) = finish_line_spec(ScanView { fed: s.fed + 1, ..s });
        if r is Err {
            (s1, r)
        } else {
            feed_spec(s1, chunk.drop_first())
        }
    } else {
        feed_spec(append_byte(s, chunk[0]), chunk.drop_first())
    }
}

pub open spec fn outcome_of(s: ScanView) -> OutcomeView {
    OutcomeView { lines: s.selected, stop: s.stop, lines_seen: s.lines_seen }
}

/// Closes the scan, treating a non-empty remainder as a final unterminated line.
pub open spec fn finish_spec(s: ScanView) -> Result<OutcomeView, ReadError> {
    if s.stop is None && s.partial_len > 0 {
        let (s1, r) = finish_line_spec(ScanView { fed: s.fed + 1, ..s });
        match r {
            Ok(_) => Ok(outcome_of(s1)),
            Err(e) => Err(e),
        }
    } else {
        Ok(outcome_of(s))
    }
}

/// Invariant of every scanner state, including the one left by a failing line.
pub open spec fn scan_inv(s: ScanView) -> bool {
    &&& s.limits.first_line <= usize::MAX
    &&& s.limits.max_lines <= usize::MAX
    &&& s.limits.max_line_bytes < usize::MAX
    &&& s.limits.max_output_bytes <= usize::MAX
    &&& s.lines_seen == s.line_index
    &&& s.line_index + s.partial_len <= s.fed
    &&& s.fed + 24 <= usize::MAX
    &&& s.partial.len() <= s.partial_len
    &&& s.partial.len() <= s.limits.max_line_bytes + 1
    &&& selected_wf(s)
}

/// Invariant of a scanner that can still take in bytes.
pub open spec fn scan_wf(s: ScanView) -> bool {
    &&& scan_inv(s)
    &&& s.fed + 25 <= usize::MAX
}

pub open spec fn selected_wf(s: ScanView) -> bool {
    &&& forall|k: int|
        0 <= k < s.selected.len() ==> s.limits.first_line < #[trigger] s.selected[k].number
            <= s.line_index
    &&& forall|j: int, k: int|
        0 <= j < k < s.selected.len() ==> #[trigger] s.selected[j].number
            < #[trigger] s.selected[k].number
    &&& forall|k: int|
        0 <= k < s.selected.len() ==> encode_utf8(#[trigger] s.selected[k].text).len()
            <= s.limits.max_line_bytes
    &&& s.output_bytes == total_rendered(s.selected)
    &&& (s.selected.len() <= 1 || s.output_bytes <= s.limits.max_output_bytes)
    &&& (s.stop is Some ==> s.selected.len() >= 1)
}

/// Invariant of a scan outcome.
pub open spec fn outcome_wf(o: OutcomeView) -> bool {
    &&& forall|k: int| 0 <= k < o.lines.len() ==> 1 <= #[trigger] o.lines[k].number < usize::MAX
    &&& (o.stop is Some ==> o.lines.len() >= 1)
    &&& o.lines_seen <= usize::MAX
}

/// Spaces that right-align a line number in the six-column prefix.
pub open spec fn padding(number: nat) -> Seq<char> {
    let digits = decimal(number).len();
    if digits < PREFIX_WIDTH {
        Seq::new((PREFIX_WIDTH - digits) as nat, |i: int| ' ')
    } else {
        seq![]
    }
}

/// One line in `cat -n` form: padded number, `→`, text.
pub open spec fn render_line(line: LineView) -> Seq<char> {
    padding(line.number) + decimal(line.number) + "→"@ + line.text
}

/// Lines in `cat -n` form, separated by newlines.
pub open spec fn render_lines_text(lines: Seq<LineView>) -> Seq<char>
    decreases lines.len(),
{
    if lines.len() == 0 {
        seq![]
    } else if lines.len() == 1 {
        render_line(lines[0])
    } else {
        render_lines_text(lines.drop_last()) + "\n"@ + render_line(lines.last())
    }
}

pub open spec fn empty_file_note() -> Seq<char> {
    EMPTY_FILE_NOTE@
}

/// The model-facing text of a scan outcome.
pub open spec fn render_output_text(
    outcome: OutcomeView,
    modified_at_ms: int,
    requested_offset: nat,
) -> Seq<char> {
    let body = render_lines_text(outcome.lines);
    match outcome.stop {
        None => if outcome.lines.len() > 0 {
            body
        } else if outcome.lines_seen == 0 {
            empty_file_note()
        } else {
            "[READ EMPTY: offset "@ + decimal(requested_offset)
                + " is past the end of the file, which has "@ + decimal(outcome.lines_seen)
                + " line(s)]"@
        },
        Some(stop) => {
            let first = if outcome.lines.len() > 0 {
                outcome.lines[0].number
            } else {
                requested_offset
            };
            let last = if outcome.lines.len() > 0 {
                outcome.lines.last().number
            } else {
                requested_offset
            };
            let marker = "[READ INCOMPLETE: showing lines "@ + decimal(first) + "-"@ + decimal(last)
                + " ("@ + stop.reason_text() + "); call read again with offset="@ + decimal(
                last + 1,
            ) + " to continue. file_modified_at_ms="@ + signed_decimal(modified_at_ms) + "]"@;
            if body.len() == 0 {
                marker
            } else {
                body + "\n"@ + marker
            }
        },
    }
}

proof fn lemma_render_line_nonempty(line: LineView)
    ensures
        render_line(line).len() > 0,
{
    crate::text::lemma_decimal_digits(line.number);
}

proof fn lemma_render_lines_nonempty(lines: Seq<LineView>)
    requires
        lines.len() > 0,
    ensures
        render_lines_text(lines).len() > 0,
    decreases lines.len(),
{
    lemma_render_line_nonempty(lines.last());
    if lines.len() == 1 {
        lemma_render_line_nonempty(lines[0]);
    }
}

/// Renders lines in `cat -n` form: a right-aligned number, `→`, then the line text.
pub fn render_lines(lines: &[NumberedLine]) -> (rendered: String)
    ensures
        rendered@ == render_lines_text(lines@.map_values(|l: NumberedLine| l@)),
{
    let ghost views = lines@.map_values(|l: NumberedLine| l@);
    let mut rendered = String::new();
    let mut i: usize = 0;
    proof {
        reveal_strlit(" ");
        assert(views.take(0) =~= Seq::<LineView>::empty());
    }
    while i < lines.len()
        invariant
            i <= lines.len(),
            views == lines@.map_values(|l: NumberedLine| l@),
            rendered@ == render_lines_text(views.take(i as int)),
        decreases lines.len() - i,
    {
        let ghost before = rendered@;
        proof {
            if i > 0 {
                lemma_render_lines_nonempty(views.take(i as int));
            }
        }
        if !rendered.as_str().is_empty() {
            rendered.append("\n");
        }
        let ghost after_separator = rendered@;
        let number = lines[i].number;
        let digits = decimal_len(number as u64);
        let mut width = digits;
        while width < PREFIX_WIDTH
            invariant
                digits <= width <= PREFIX_WIDTH || (width == digits && digits >= PREFIX_WIDTH),
                rendered@ == after_separator + Seq::new((width - digits) as nat, |k: int| ' '),
            decreases PREFIX_WIDTH - width,
        {
            proof {
                reveal_strlit(" ");
            }
            rendered.append(" ");
            width = width + 1;
            assert(rendered@ =~= after_separator + Seq::new((width - digits) as nat, |k: int| ' '));
        }
        assert(Seq::new((width - digits) as nat, |k: int| ' ') =~= padding(number as nat));
        push_decimal(&mut rendered, number as u64);
        rendered.append("→");
        rendered.append(lines[i].text.as_str());
        proof {
            let line = views[i as int];
            assert(line == lines@[i as int]@);
            assert(views.take(i + 1).drop_last() =~= views.take(i as int));
            assert(views.take(i + 1).last() == line);
            if i == 0 {
                assert(rendered@ =~= render_line(line));
            } else {
                assert(rendered@ =~= before + "\n"@ + render_line(line));
            }
        }
        i = i + 1;
    }
    assert(views.take(lines.len() as int) =~= views);
    rendered
}

/// Renders the scanner outcome into the model-facing `cat -n` text, with a marker
/// telling the model how to continue when the read stopped early.
pub fn render_read_output(
    outcome: &ReadOutcome,
    modified_at_ms: i64,
    requested_offset: usize,
) -> (text: String)
    requires
        outcome.wf(),
    ensures
        text@ == render_output_text(outcome@, modified_at_ms as int, requested_offset as nat),
{
    let body = render_lines(outcome.lines.as_slice());
    assert(outcome.lines@.map_values(|l: NumberedLine| l@) == outcome@.lines);
    match outcome.stop {
        None => {
            if outcome.lines.len() > 0 {
                return body;
            }
            if outcome.lines_seen == 0 {
                let mut note = String::new();
                note.append(EMPTY_FILE_NOTE);
                return note;
            }
            let mut note = String::new();
            note.append("[READ EMPTY: offset ");
            push_decimal(&mut note, requested_offset as u64);
            note.append(" is past the end of the file, which has ");
            push_decimal(&mut note, outcome.lines_seen as u64);
            note.append(" line(s)]");
            note
        },
        Some(stop) => {
            let count = outcome.lines.len();
            let first = if count > 0 {
                outcome.lines[0].number
            } else {
                requested_offset
            };
            let last = if count > 0 {
                outcome.lines[count - 1].number
            } else {
                requested_offset
            };
            proof {
                assert(outcome@.lines[count - 1] == outcome.lines@[count - 1]@);
            }
            let mut marker = String::new();
            marker.append("[READ INCOMPLETE: showing lines ");
            push_decimal(&mut marker, first as u64);
            marker.append("-");
            push_decimal(&mut marker, last as u64);
            marker.append(" (");
            marker.append(stop.reason());
            marker.append("); call read again with offset=");
            push_decimal(&mut marker, (last + 1) as u64);
            marker.append(" to continue. file_modified_at_ms=");
            push_signed_decimal(&mut marker, modified_at_ms);
            marker.append("]");
            if body.as_str().is_empty() {
                marker
            } else {
                let mut text = body;
                text.append("\n");
                text.append(marker.as_str());
                text
            }
        },
    }
}

/// Result of scanning a (possibly partial) file.
#[derive(Clone, Debug, PartialEq, Eq)]
pub struct ReadOutcome {
    lines: Vec<NumberedLine>,
    stop: Option<ReadStop>,
    lines_seen: usize,
}

impl View for ReadOutcome {
    type V = OutcomeView;

    closed spec fn view(&self) -> OutcomeView {
        OutcomeView {
            lines: self.lines@.map_values(|l: NumberedLine| l@),
            stop: self.stop,
            lines_seen: self.lines_seen as nat,
        }
    }
}

impl ReadOutcome {
    pub closed spec fn wf(&self) -> bool {
        outcome_wf(self@)
    }

    /// The selected lines, in file order.
    pub fn lines(&self) -> (lines: &[NumberedLine])
        ensures
            lines@.map_values(|l: NumberedLine| l@) == self@.lines,
    {
        self.lines.as_slice()
    }

    /// Why the scan stopped early, if it did.
    pub fn stop(&self) -> (stop: Option<ReadStop>)
        ensures
            stop == self@.stop,
    {
        self.stop
    }

    /// Number of lines the scanner closed, including skipped ones.
    pub fn lines_seen(&self) -> (seen: usize)
        ensures
            seen == self@.lines_seen,
    {
        self.lines_seen
    }
}

/// Incremental, byte-oriented line scanner with window and byte-budget gates.
pub struct ReadScanner {
    first_line: usize,
    max_lines: usize,
    max_line_bytes: usize,
    max_output_bytes: usize,
    line_index: usize,
    partial: Vec<u8>,
    partial_len: usize,
    lines_seen: usize,
    selected: Vec<NumberedLine>,
    output_bytes: usize,
    stop: Option<ReadStop>,
    fed: Ghost<nat>,
}

impl View for ReadScanner {
    type V = ScanView;

    closed spec fn view(&self) -> ScanView {
        ScanView {
            limits: ScanLimits {
                first_line: self.first_line as nat,
                max_lines: self.max_lines as nat,
                max_line_bytes: self.max_line_bytes as nat,
                max_output_bytes: self.max_output_bytes as nat,
            },
            line_index: self.line_index as nat,
            partial: self.partial@,
            partial_len: self.partial_len as nat,
            lines_seen: self.lines_seen as nat,
            selected: self.selected@.map_values(|l: NumberedLine| l@),
            output_bytes: self.output_bytes as nat,
            stop: self.stop,
            fed: self.fed@,
        }
    }
}

/// The line limit that `ReadScanner::new` applies for a requested `limit`.
pub open spec fn effective_max_lines(limit: Option<usize>) -> nat {
    match limit {
        None => DEFAULT_MAX_LINES as nat,
        Some(l) => if l == 0 {
            DEFAULT_MAX_LINES as nat
        } else {
            l as nat
        },
    }
}

/// The 1-based line at which `ReadScanner::new` starts for a requested `offset`.
pub open spec fn effective_offset(offset: Option<usize>) -> nat {
    match offset {
        None => 1,
        Some(o) => if o == 0 {
            1
        } else {
            o as nat
        },
    }
}

impl ReadScanner {
    pub closed spec fn wf(&self) -> bool {
        scan_wf(self@)
    }

    /// Creates a scanner using the production line, per-line, and output limits.
    pub fn new(offset: Option<usize>, limit: Option<usize>) -> (scanner: Self)
        ensures
            scanner.wf(),
            scanner@.limits.max_lines == match limit {
                Some(l) => if l > 0 {
                    l as nat
                } else {
                    500nat
                },
                None => 500nat,
            },
            scanner@.limits.first_line == match offset {
                Some(o) => if o > 1 {
                    (o - 1) as nat
                } else {
                    0nat
                },
                None => 0nat,
            },
            scanner@.limits.max_line_bytes == 32 * 1024,
            scanner@.limits.max_output_bytes == 256 * 1024,
            scanner@ == initial_scan(
                ScanLimits {
                    first_line: (effective_offset(offset) - 1) as nat,
                    max_lines: effective_max_lines(limit),
                    max_line_bytes: MAX_LINE_BYTES as nat,
                    max_output_bytes: MAX_OUTPUT_BYTES as nat,
                },
            ),
    {
        let requested_offset = match offset {
            Some(o) => if o > 1 {
                o
            } else {
                1
            },
            None => 1,
        };
        let max_lines = match limit {
            None => DEFAULT_MAX_LINES,
            Some(l) => if l == 0 {
                DEFAULT_MAX_LINES
            } else {
                l
            },
        };
        Self::new_with_limits(requested_offset - 1, max_lines, MAX_LINE_BYTES, MAX_OUTPUT_BYTES)
    }

    /// Creates a scanner that skips `first_line` lines and applies the given limits.
    pub fn new_with_limits(
        first_line: usize,
        max_lines: usize,
        max_line_bytes: usize,
        max_output_bytes: usize,
    ) -> (scanner: Self)
        requires
            max_line_bytes < usize::MAX,
        ensures
            scanner.wf(),
            scanner@ == initial_scan(
                ScanLimits {
                    first_line: first_line as nat,
                    max_lines: max_lines as nat,
                    max_line_bytes: max_line_bytes as nat,
                    max_output_bytes: max_output_bytes as nat,
                },
            ),
    {
        let scanner = Self {
            first_line,
            max_lines,
            max_line_bytes,
            max_output_bytes,
            line_index: 0,
            partial: Vec::new(),
            partial_len: 0,
            lines_seen: 0,
            selected: Vec::new(),
            output_bytes: 0,
            stop: None,
            fed: Ghost(0),
        };
        assert(scanner@.selected =~= Seq::<LineView>::empty());
        scanner
    }

    /// Returns whether the scanner already has all output it can produce.
    pub fn is_stopped(&self) -> (stopped: bool)
        ensures
            stopped == self@.stop is Some,
    {
        self.stop.is_some()
    }

    /// Feeds one chunk. Bytes after a stop decision are ignored.
    pub fn feed(&mut self, chunk: &[u8]) -> (result: Result<(), ReadError>)
        requires
            old(self).wf(),
            chunk@.len() <= old(self).room(),
        ensures
            final(self).wf(),
            (final(self)@, result) == feed_spec(old(self)@, chunk@),
            final(self)@.fed <= old(self)@.fed + chunk@.len(),
    {
        if self.stop.is_some() {
            return Ok(());
        }
        let mut i: usize = 0;
        assert(chunk@.skip(0) =~= chunk@);
        while i < chunk.len()
            invariant
                self.wf(),
                i <= chunk.len(),
                self@.stop is None,
                self@.fed == old(self)@.fed + i,
                chunk@.len() <= old(self).room(),
                feed_spec(old(self)@, chunk@) == feed_spec(self@, chunk@.skip(i as int)),
            decreases chunk.len() - i,
        {
            let byte = chunk[i];
            assert(chunk@.skip(i as int).drop_first() =~= chunk@.skip(i + 1));
            assert(chunk@.skip(i as int)[0] == byte);
            if byte == 0x0a {
                self.fed = Ghost(self.fed@ + 1);
                let result = self.finish_line();
                i = i + 1;
                if result.is_err() {
                    return result;
                }
                if self.stop.is_some() {
                    assert(feed_spec(self@, chunk@.skip(i as int)) == (self@, Ok::<(), ReadError>(())));
                    return Ok(());
                }
            } else {
                self.append_byte(byte);
                i = i + 1;
            }
        }
        Ok(())
    }

    /// Closes the scan, treating a non-empty remainder as a final unterminated line.
    pub fn finish(self) -> (result: Result<ReadOutcome, ReadError>)
        requires
            self.wf(),
        ensures
            match result {
                Ok(outcome) => finish_spec(self@) == Ok::<OutcomeView, ReadError>(outcome@)
                    && outcome.wf(),
                Err(e) => finish_spec(self@) == Err::<OutcomeView, ReadError>(e),
            },
    {
        let mut scanner = self;
        if scanner.stop.is_none() && scanner.partial_len > 0 {
            scanner.fed = Ghost(scanner.fed@ + 1);
            let result = scanner.finish_line();
            if let Err(e) = result {
                return Err(e);
            }
        }
        let outcome = ReadOutcome {
            lines: scanner.selected,
            stop: scanner.stop,
            lines_seen: scanner.lines_seen,
        };
        Ok(outcome)
    }

    fn append_byte(&mut self, byte: u8)
        requires
            old(self).wf(),
            old(self)@.fed + 26 <= usize::MAX,
        ensures
            final(self)@ == append_byte(old(self)@, byte),
            final(self).wf(),
    {
        self.partial_len = self.partial_len + 1;
        if self.partial.len() < self.max_line_bytes + 1 {
            self.partial.push(byte);
        }
        self.fed = Ghost(self.fed@ + 1);
    }

    fn finish_line(&mut self) -> (result: Result<(), ReadError>)
        requires
            scan_inv(old(self)@),
            old(self)@.line_index + old(self)@.partial_len + 1 <= old(self)@.fed,
            old(self)@.stop is None,
        ensures
            (final(self)@, result) == finish_line_spec(old(self)@),
            scan_inv(final(self)@),
            final(self)@.fed == old(self)@.fed,
    {
        let ghost old_view = self@;
        let index = self.line_index;
        self.line_index = index + 1;
        self.lines_seen = self.lines_seen + 1;
        if index < self.first_line {
            self.partial = Vec::new();
            self.partial_len = 0;
            return Ok(());
        }
        if self.partial_len > self.max_line_bytes {
            return Err(ReadError::LineTooLong { line: index + 1, bytes: self.partial_len });
        }
        let mut bytes: Vec<u8> = Vec::new();
        std::mem::swap(&mut bytes, &mut self.partial);
        let ghost full = bytes@;
        if !is_utf8(bytes.as_slice()) {
            return Err(ReadError::NotUtf8 { line: index + 1 });
        }
        self.partial_len = 0;
        if bytes.len() > 0 && bytes[bytes.len() - 1] == 0x0d {
            bytes.pop();
        }
        if index == 0 && bytes.len() >= 3 && bytes[0] == 0xef && bytes[1] == 0xbb && bytes[2]
            == 0xbf {
            bytes = bytes.split_off(3);
        }
        proof {
            lemma_strip_valid(index as nat, full);
            assert(bytes@ =~= strip_line(index as nat, full));
            decode_utf8_encode_utf8(bytes@);
        }
        let text = match string_from_utf8(bytes) {
            Some(text) => text,
            None => {
                assert(false);
                String::new()
            },
        };
        let line = NumberedLine { number: index + 1, text };
        let rendered = line.rendered_len();
        let fits = self.selected.len() == 0 || (self.output_bytes <= self.max_output_bytes
            && rendered <= self.max_output_bytes - self.output_bytes);
        let ghost new_line = line@;
        if fits {
            self.output_bytes = self.output_bytes + rendered;
            self.selected.push(line);
            proof {
                assert(self@.selected =~= old_view.selected.push(new_line));
                assert(self@.selected.drop_last() =~= old_view.selected);
            }
            if self.selected.len() >= self.max_lines {
                self.stop = Some(ReadStop::LineLimit);
            }
        } else {
            self.stop = Some(ReadStop::ByteBudget);
        }
        Ok(())
    }

    /// Bytes of input the scanner can still take in.
    pub open spec fn room(&self) -> nat {
        (usize::MAX - 25 - self@.fed) as nat
    }
}

/// The UTF-8 bytes of one rendered line are its `rendered_len`, less the newline that
/// separates it from the next.
proof fn lemma_render_line_bytes(line: LineView)
    ensures
        encode_utf8(render_line(line)).len() + 1 == rendered_len(line),
{
    let pad = padding(line.number);
    let dec = decimal(line.number);
    let arrow = "→"@;
    reveal_strlit("→");
    lemma_decimal_digits(line.number);
    lemma_encode_concat(pad, dec);
    lemma_encode_concat(pad + dec, arrow);
    lemma_encode_concat(pad + dec + arrow, line.text);
    assert(is_ascii_chars(pad));
    is_ascii_chars_encode_utf8(pad);
    assert(is_ascii_chars(dec));
    is_ascii_chars_encode_utf8(dec);
    assert(encode_utf8(arrow).len() == 3) by {
        assert(arrow =~= seq!['\u{2192}']);
        reveal_with_fuel(encode_utf8, 2);
        assert(arrow.drop_first() =~= Seq::<char>::empty());
    }
}

/// The output budget counts exactly the bytes the model receives: the rendered text of
/// the selected lines is their summed `rendered_len`, less the newline after the last.
pub proof fn lemma_output_budget_counts_rendered_bytes(lines: Seq<LineView>)
    requires
        lines.len() > 0,
    ensures
        encode_utf8(render_lines_text(lines)).len() + 1 == total_rendered(lines),
    decreases lines.len(),
{
    lemma_render_line_bytes(lines.last());
    if lines.len() == 1 {
        assert(lines.drop_last() =~= Seq::<LineView>::empty());
        assert(lines.last() == lines[0]);
        assert(total_rendered(lines) == rendered_len(lines[0])) by {
            reveal_with_fuel(total_rendered, 2);
        }
    } else {
        let init = lines.drop_last();
        lemma_output_budget_counts_rendered_bytes(init);
        reveal_strlit("\n");
        let nl = "\n"@;
        lemma_encode_concat(render_lines_text(init), nl);
        lemma_encode_concat(render_lines_text(init) + nl, render_line(lines.last()));
        assert(is_ascii_chars(nl));
        is_ascii_chars_encode_utf8(nl);
        assert(render_lines_text(lines) == render_lines_text(init) + nl + render_line(lines.last()));
        assert(encode_utf8(render_lines_text(lines)).len() == encode_utf8(render_lines_text(init)).len()
            + 1 + encode_utf8(render_line(lines.last())).len());
    }
}

/// A stopped scanner takes in nothing: feeding it any bytes succeeds and leaves it as it
/// is, so it finishes as it would have before.
pub proof fn lemma_stopped_scanner_ignores_input(s: ScanView, chunk: Seq<u8>)
    requires
        s.stop is Some,
    ensures
        feed_spec(s, chunk) == (s, Ok::<(), ReadError>(())),
{
}

/// Whole-file scan: feed all bytes from a fresh scanner, then finish.
pub open spec fn scan_spec(limits: ScanLimits, bytes: Seq<u8>) -> Result<OutcomeView, ReadError> {
    let (s, r) = feed_spec(initial_scan(limits), bytes);
    match r {
        Ok(_) => finish_spec(s),
        Err(e) => Err(e),
    }
}

/// Lines and length of the unterminated remainder after taking in `bytes`, starting from
/// `line_index` closed lines and a remainder of `partial_len` bytes.
pub open spec fn count_lines(line_index: nat, partial_len: nat, bytes: Seq<u8>) -> (nat, nat)
    decreases bytes.len(),
{
    if bytes.len() == 0 {
        (line_index, partial_len)
    } else if bytes[0] == 0x0a {
        count_lines(line_index + 1, 0, bytes.drop_first())
    } else {
        count_lines(line_index, partial_len + 1, bytes.drop_first())
    }
}

/// The number of lines of a file: its newline-terminated lines, and a last line without
/// a newline when bytes follow the last newline.
pub open spec fn byte_lines(bytes: Seq<u8>) -> nat {
    let (closed, rest) = count_lines(0, 0, bytes);
    closed + if rest > 0 {
        1nat
    } else {
        0nat
    }
}

/// The selected window starts at the first line after the skipped ones: it is empty only
/// while that line has not been closed, and a stopped scan has selected lines.
pub open spec fn window_starts(s: ScanView) -> bool {
    &&& s.selected.len() > 0 ==> s.selected[0].number == s.limits.first_line + 1
    &&& s.line_index > s.limits.first_line ==> s.selected.len() > 0
    &&& s.stop is Some ==> s.selected.len() > 0
    &&& s.lines_seen == s.line_index
}

proof fn lemma_finish_line_window(s: ScanView)
    requires
        window_starts(s),
        s.stop is None,
    ensures
        finish_line_spec(s).1 is Ok ==> window_starts(finish_line_spec(s).0),
        finish_line_spec(s).1 is Ok ==> finish_line_spec(s).0.line_index == s.line_index + 1
            && finish_line_spec(s).0.partial_len == 0,
{
    let index = s.line_index;
    if index >= s.limits.first_line && s.selected.len() == 0 {
        assert(index == s.limits.first_line);
    }
}

proof fn lemma_feed_window(s: ScanView, chunk: Seq<u8>)
    requires
        window_starts(s),
    ensures
        feed_spec(s, chunk).0.limits == s.limits,
        feed_spec(s, chunk).1 is Ok ==> window_starts(feed_spec(s, chunk).0),
        (feed_spec(s, chunk).1 is Ok && feed_spec(s, chunk).0.stop is None) ==> (
        feed_spec(s, chunk).0.line_index,
        feed_spec(s, chunk).0.partial_len,
        ) == count_lines(s.line_index, s.partial_len, chunk),
    decreases chunk.len(),
{
    if s.stop is None && chunk.len() > 0 {
        if chunk[0] == 0x0a {
            let t = ScanView { fed: s.fed + 1, ..s };
            lemma_finish_line_window(t);
            let (s1, r) = finish_line_spec(t);
            if r is Ok {
                lemma_feed_window(s1, chunk.drop_first());
            }
        } else {
            lemma_feed_window(append_byte(s, chunk[0]), chunk.drop_first());
        }
    }
}

/// A read that reaches the requested offset starts exactly there: when the file has more
/// lines than the window skips and the scan succeeds, its first line is the first line
/// after the skipped ones.
pub proof fn lemma_scan_starts_at_offset(limits: ScanLimits, bytes: Seq<u8>)
    requires
        scan_spec(limits, bytes) is Ok,
        limits.first_line < byte_lines(bytes),
    ensures
        scan_spec(limits, bytes)->Ok_0.lines.len() > 0,
        scan_spec(limits, bytes)->Ok_0.lines[0].number == limits.first_line + 1,
{
    let s0 = initial_scan(limits);
    assert(window_starts(s0));
    lemma_feed_window(s0, bytes);
    let s = feed_spec(s0, bytes).0;
    let r = feed_spec(s0, bytes).1;
    assert(r is Ok);
    assert(window_starts(s));
    let (closed, rest) = count_lines(0, 0, bytes);
    if s.stop is None && s.partial_len > 0 {
        let t = ScanView { fed: s.fed + 1, ..s };
        lemma_finish_line_window(t);
        assert(finish_line_spec(t).1 is Ok);
        assert(s.line_index == closed && s.partial_len == rest);
        assert(window_starts(finish_line_spec(t).0));
        assert(finish_line_spec(t).0.line_index > limits.first_line);
        assert(scan_spec(limits, bytes) == Ok::<OutcomeView, ReadError>(outcome_of(finish_line_spec(t).0)));
    } else {
        if s.stop is None {
            assert(s.line_index == closed && s.partial_len == rest);
            assert(s.line_index > limits.first_line);
        }
        assert(scan_spec(limits, bytes) == Ok::<OutcomeView, ReadError>(outcome_of(s)));
    }
}

/// A read without a limit (or with a zero limit) returns at most 500 lines, and a given
/// positive limit is kept; the window starts at the requested line, the first one when
/// none (or zero) is given.
pub proof fn lemma_read_defaults()
    ensures
        effective_max_lines(None) == 500,
        effective_max_lines(Some(0usize)) == 500,
        forall|l: usize| l > 0 ==> #[trigger] effective_max_lines(Some(l)) == l,
        effective_offset(None) == 1,
        effective_offset(Some(0usize)) == 1,
        forall|o: usize| o > 0 ==> #[trigger] effective_offset(Some(o)) == o,
{
}

/// A scan never selects more lines than its line limit, and one that selects that many
/// stops at the line limit.
pub proof fn lemma_scan_respects_line_limit(limits: ScanLimits, bytes: Seq<u8>)
    requires
        limits.max_lines > 0,
        scan_spec(limits, bytes) is Ok,
    ensures
        scan_spec(limits, bytes)->Ok_0.lines.len() <= limits.max_lines,
        scan_spec(limits, bytes)->Ok_0.lines.len() == limits.max_lines
            ==> scan_spec(limits, bytes)->Ok_0.stop == Some(ReadStop::LineLimit),
{
    let s0 = initial_scan(limits);
    lemma_feed_line_limit(s0, bytes);
    let s = feed_spec(s0, bytes).0;
    if s.stop is None && s.partial_len > 0 {
        lemma_finish_line_limit(ScanView { fed: s.fed + 1, ..s });
    }
}

/// The line limit holds of a state: at most `max_lines` lines, and reaching it means the
/// scan stopped there.
pub open spec fn within_line_limit(s: ScanView) -> bool {
    &&& s.selected.len() <= s.limits.max_lines
    &&& s.selected.len() == s.limits.max_lines ==> s.stop == Some(ReadStop::LineLimit)
    &&& s.stop == Some(ReadStop::LineLimit) ==> s.selected.len() == s.limits.max_lines
}

proof fn lemma_finish_line_limit(s: ScanView)
    requires
        within_line_limit(s),
        s.limits.max_lines > 0,
        s.stop is None,
    ensures
        within_line_limit(finish_line_spec(s).0),
        finish_line_spec(s).0.limits == s.limits,
{
}

proof fn lemma_feed_line_limit(s: ScanView, chunk: Seq<u8>)
    requires
        within_line_limit(s),
        s.limits.max_lines > 0,
    ensures
        within_line_limit(feed_spec(s, chunk).0),
        feed_spec(s, chunk).0.limits == s.limits,
    decreases chunk.len(),
{
    if s.stop is None && chunk.len() > 0 {
        if chunk[0] == 0x0a {
            let t = ScanView { fed: s.fed + 1, ..s };
            lemma_finish_line_limit(t);
            let (s1, r) = finish_line_spec(t);
            if r is Ok {
                lemma_feed_line_limit(s1, chunk.drop_first());
            }
        } else {
            lemma_feed_line_limit(append_byte(s, chunk[0]), chunk.drop_first());
        }
    }
}

/// Following the read's continuation hint continues the read with no gap and no overlap:
/// when a read stops early after line `n`, it tells the model to read again from
/// `offset = n + 1`, and a read of the same file that skips the first `n` lines (the
/// window of that offset) starts at line `n + 1`, whenever the file has such a line.
pub proof fn lemma_offset_hint_continues_the_read(limits: ScanLimits, bytes: Seq<u8>)
    requires
        scan_spec(limits, bytes) is Ok,
        scan_spec(limits, bytes)->Ok_0.stop is Some,
        scan_spec(
            ScanLimits { first_line: scan_spec(limits, bytes)->Ok_0.lines.last().number, ..limits },
            bytes,
        ) is Ok,
        scan_spec(limits, bytes)->Ok_0.lines.last().number < byte_lines(bytes),
    ensures
        ({
            let first = scan_spec(limits, bytes)->Ok_0;
            let n = first.lines.last().number;
            let next = scan_spec(ScanLimits { first_line: n, ..limits }, bytes)->Ok_0;
            &&& first.lines.len() > 0
            &&& next.lines.len() > 0
            &&& next.lines[0].number == n + 1
        }),
{
    let s0 = initial_scan(limits);
    lemma_feed_window(s0, bytes);
    let (s, r) = feed_spec(s0, bytes);
    if s.stop is None && s.partial_len > 0 {
        lemma_finish_line_window(ScanView { fed: s.fed + 1, ..s });
    }
    let n = scan_spec(limits, bytes)->Ok_0.lines.last().number;
    lemma_scan_starts_at_offset(ScanLimits { first_line: n, ..limits }, bytes);
}

/// Feeding `a` and then `b` leaves the scanner exactly as feeding `a + b` in one chunk
/// does: where the chunk boundaries fall never changes what the scanner sees.
pub proof fn lemma_feed_concat(s: ScanView, a: Seq<u8>, b: Seq<u8>)
    ensures
        feed_spec(s, a + b) == (match feed_spec(s, a) {
            (s1, Ok(_)) => feed_spec(s1, b),
            failed => failed,
        }),
    decreases a.len(),
{
    if s.stop is Some {
    } else if a.len() == 0 {
        assert(a + b =~= b);
    } else {
        assert((a + b)[0] == a[0]);
        assert((a + b).drop_first() =~= a.drop_first() + b);
        if a[0] == 0x0a {
            let (s1, r) = finish_line_spec(ScanView { fed: s.fed + 1, ..s });
            if r is Ok {
                lemma_feed_concat(s1, a.drop_first(), b);
            }
        } else {
            lemma_feed_concat(append_byte(s, a[0]), a.drop_first(), b);
        }
    }
}

/// A whole-file scan of `a + b` equals feeding `a` and `b` as two chunks and finishing.
pub proof fn lemma_scan_chunk_invariant(limits: ScanLimits, a: Seq<u8>, b: Seq<u8>)
    ensures
        scan_spec(limits, a + b) == (match feed_spec(initial_scan(limits), a) {
            (s1, Ok(_)) => match feed_spec(s1, b) {
                (s2, Ok(_)) => finish_spec(s2),
                (_, Err(e)) => Err(e),
            },
            (_, Err(e)) => Err(e),
        }),
{
    lemma_feed_concat(initial_scan(limits), a, b);
}

proof fn lemma_feed_unterminated(s: ScanView, x: Seq<u8>)
    requires
        x.len() > 0,
        x.last() != 0x0a,
    ensures
        feed_spec(s, x).1 is Ok && feed_spec(s, x).0.stop is None ==> feed_spec(s, x).0.partial_len
            > 0,
{
    let init = x.drop_last();
    assert(init + seq![x.last()] =~= x);
    lemma_feed_concat(s, init, seq![x.last()]);
    let (s1, r1) = feed_spec(s, init);
    if r1 is Ok && s1.stop is None {
        let c = x.last();
        assert(seq![c].drop_first() =~= Seq::<u8>::empty());
        assert(seq![c][0] == c);
        let s2 = append_byte(s1, c);
        assert(feed_spec(s2, Seq::<u8>::empty()) == (s2, Ok::<(), ReadError>(())));
        assert(feed_spec(s1, seq![c]) == (s2, Ok::<(), ReadError>(())));
    }
}

/// A trailing newline does not create a phantom line: scanning a non-empty text that
/// does not end with a newline gives the same result as scanning it with one more newline.
pub proof fn lemma_trailing_newline_adds_no_line(limits: ScanLimits, x: Seq<u8>)
    requires
        x.len() > 0,
        x.last() != 0x0a,
    ensures
        scan_spec(limits, x + seq![0x0au8]) == scan_spec(limits, x),
{
    let init = initial_scan(limits);
    lemma_feed_concat(init, x, seq![0x0au8]);
    lemma_feed_unterminated(init, x);
    let (s1, r1) = feed_spec(init, x);
    if r1 is Ok && s1.stop is None {
        assert(seq![0x0au8].drop_first() =~= Seq::<u8>::empty());
        let (s2, r2) = finish_line_spec(ScanView { fed: s1.fed + 1, ..s1 });
        if r2 is Ok {
            assert(feed_spec(s2, Seq::<u8>::empty()) == (s2, r2));
        }
    }
}

} // verus!
