use crate::clock::{parse_rfc3339, rfc3339_of, rfc3339_text, rfc3339_value, Timestamp};
use crate::decimal::{parse_i32, parse_i32_chars, push_signed, signed_decimal};
use crate::text::{
    chars_of, find, find_first, has_prefix, lines, push_str, slice_of, split_lines, starts_with,
    string_of, trim, trimmed, views,
};
use vstd::prelude::*;

verus! {

/// What is known of one run of a command.
#[derive(Debug, Clone)]
pub struct CommandMetadata {
    pub command: String,
    pub exit_code: i32,
    pub timestamp: Timestamp,
    pub summary: Option<String>,
}

/// A `CommandMetadata` as plain values.
pub struct MetadataView {
    pub command: Seq<char>,
    pub exit_code: int,
    pub timestamp: Timestamp,
    pub summary: Option<Seq<char>>,
}

impl View for CommandMetadata {
    type V = MetadataView;

    open spec fn view(&self) -> MetadataView {
        MetadataView {
            command: self.command@,
            exit_code: self.exit_code as int,
            timestamp: self.timestamp,
            summary: match self.summary {
                Some(s) => Some(s@),
                None => None,
            },
        }
    }
}

/// The line that opens a header.
pub open spec fn start_marker() -> Seq<char> {
    "---CTX_GUARD_METADATA---"@
}

/// The line that closes a header.
pub open spec fn end_marker() -> Seq<char> {
    "---END_METADATA---"@
}

/// The key before the command.
pub open spec fn command_key() -> Seq<char> {
    "command: "@
}

/// The key before the exit code.
pub open spec fn exit_code_key() -> Seq<char> {
    "exit_code: "@
}

/// The key before the timestamp.
pub open spec fn timestamp_key() -> Seq<char> {
    "timestamp: "@
}

/// The key before the summary.
pub open spec fn summary_key() -> Seq<char> {
    "summary: "@
}

/// `c`, or a space in the place of a line feed or a carriage return.
pub open spec fn flat_char(c: char) -> char {
    if c == '\n' || c == '\r' {
        ' '
    } else {
        c
    }
}

/// `s` with each line feed and each carriage return replaced by one space.
pub open spec fn flatten(s: Seq<char>) -> Seq<char> {
    Seq::new(s.len(), |i: int| flat_char(s[i]))
}

/// What stands behind `summary: ` in a header: the summary on one line, or
/// nothing.
pub open spec fn summary_text(summary: Option<Seq<char>>) -> Seq<char> {
    match summary {
        Some(s) => flatten(s),
        None => Seq::empty(),
    }
}

/// `text` as a line: with a line feed behind it.
pub open spec fn line(text: Seq<char>) -> Seq<char> {
    text + seq!['\n']
}

/// The line of the header that tells the command.
pub open spec fn command_line(m: MetadataView) -> Seq<char> {
    command_key() + m.command
}

/// The line of the header that tells the exit code.
pub open spec fn exit_code_line(m: MetadataView) -> Seq<char> {
    exit_code_key() + signed_decimal(m.exit_code)
}

/// The line of the header that tells the timestamp.
pub open spec fn timestamp_line(m: MetadataView) -> Seq<char> {
    timestamp_key() + rfc3339_of(m.timestamp)
}

/// The line of the header that tells the summary.
pub open spec fn summary_line(m: MetadataView) -> Seq<char> {
    summary_key() + summary_text(m.summary)
}

/// The header of a record, six lines: the start marker, one line for each
/// field in the order command, exit code, timestamp, summary, and the end
/// marker.
pub open spec fn header_of(m: MetadataView) -> Seq<char> {
    line(start_marker()) + line(command_line(m)) + line(exit_code_line(m)) + line(
        timestamp_line(m),
    ) + line(summary_line(m)) + line(end_marker())
}

/// The header for `metadata`.
pub fn format_metadata(metadata: &CommandMetadata) -> (r: String)
    requires
        metadata.timestamp.wf(),
    ensures
        r@ == header_of(metadata@),
{
    let mut out: Vec<char> = Vec::new();
    push_str(&mut out, "---CTX_GUARD_METADATA---");
    out.push('\n');
    push_str(&mut out, "command: ");
    push_str(&mut out, metadata.command.as_str());
    out.push('\n');
    push_str(&mut out, "exit_code: ");
    push_signed(&mut out, metadata.exit_code as i64);
    out.push('\n');
    push_str(&mut out, "timestamp: ");
    let stamp = rfc3339_text(&metadata.timestamp);
    push_str(&mut out, stamp.as_str());
    out.push('\n');
    push_str(&mut out, "summary: ");
    match &metadata.summary {
        Some(s) => {
            let v = chars_of(s.as_str());
            let mut i: usize = 0;
            let ghost before = out@;
            while i < v.len()
                invariant
                    i <= v.len(),
                    out@ == before + flatten(v@).take(i as int),
                decreases v.len() - i,
            {
                let c = v[i];
                out.push(
                    if c == '\n' || c == '\r' {
                        ' '
                    } else {
                        c
                    },
                );
                i += 1;
                assert(before + flatten(v@).take(i as int) =~= (before + flatten(v@).take(
                    i - 1,
                )).push(flat_char(v@[i - 1])));
            }
            assert(flatten(v@).take(v.len() as int) =~= flatten(v@));
        },
        None => {
            assert(out@ + Seq::<char>::empty() =~= out@);
        },
    }
    out.push('\n');
    push_str(&mut out, "---END_METADATA---");
    out.push('\n');
    assert(out@ =~= header_of(metadata@));
    string_of(&out)
}

/// What a scan of header lines has found so far.
pub struct Fields {
    pub command: Option<Seq<char>>,
    pub exit_code: Option<int>,
    pub timestamp: Option<Timestamp>,
    pub summary: Option<Seq<char>>,
    pub failed: bool,
}

/// What is known before the first line.
pub open spec fn no_fields() -> Fields {
    Fields { command: None, exit_code: None, timestamp: None, summary: None, failed: false }
}

/// What is known after one more line. A line that begins with the key of a
/// field sets that field to what stands behind the key, trimmed; any other
/// line changes nothing. A strict scan fails for good on an exit code that
/// is no number.
pub open spec fn scan_line(f: Fields, line: Seq<char>, strict: bool) -> Fields {
    if has_prefix(line, command_key()) {
        Fields { command: Some(trim(line.skip(9))), ..f }
    } else if has_prefix(line, exit_code_key()) {
        let value = parse_i32(trim(line.skip(11)));
        Fields { exit_code: value, failed: f.failed || (strict && value is None), ..f }
    } else if has_prefix(line, timestamp_key()) {
        Fields { timestamp: rfc3339_value(trim(line.skip(11))), ..f }
    } else if has_prefix(line, summary_key()) {
        let value = trim(line.skip(9));
        Fields {
            summary: if value.len() == 0 {
                None
            } else {
                Some(value)
            },
            ..f
        }
    } else {
        f
    }
}

/// What is known after the lines `ls`, taken in order.
pub open spec fn scan_lines(ls: Seq<Seq<char>>, f: Fields, strict: bool) -> Fields
    decreases ls.len(),
{
    if ls.len() == 0 {
        f
    } else {
        scan_lines(ls.drop_first(), scan_line(f, ls[0], strict), strict)
    }
}

/// Whether `content` begins with the start marker and holds the end marker.
pub open spec fn has_header(content: Seq<char>) -> bool {
    has_prefix(content, start_marker()) && find(content, end_marker()) >= 0
}

/// The length of the header span: up to the end of the first end marker.
pub open spec fn header_len(content: Seq<char>) -> int {
    find(content, end_marker()) + end_marker().len()
}

/// The lines of the header span of `content`.
pub open spec fn header_lines(content: Seq<char>) -> Seq<Seq<char>> {
    lines(content.take(header_len(content)))
}

/// The metadata that the file contents `content` carry: there is a header,
/// and a strict scan of its lines finds command, exit code and timestamp.
pub open spec fn metadata_of(content: Seq<char>) -> Option<MetadataView> {
    let f = scan_lines(header_lines(content), no_fields(), true);
    if !has_header(content) || f.failed || f.command is None || f.exit_code is None
        || f.timestamp is None {
        None
    } else {
        Some(
            MetadataView {
                command: f.command->0,
                exit_code: f.exit_code->0,
                timestamp: f.timestamp->0,
                summary: f.summary,
            },
        )
    }
}

/// What a scan has found, as values that can be handed on.
pub struct Scanned {
    pub command: Option<Vec<char>>,
    pub exit_code: Option<i32>,
    pub timestamp: Option<Timestamp>,
    pub summary: Option<Vec<char>>,
    pub failed: bool,
}

impl View for Scanned {
    type V = Fields;

    open spec fn view(&self) -> Fields {
        Fields {
            command: match self.command {
                Some(c) => Some(c@),
                None => None,
            },
            exit_code: match self.exit_code {
                Some(e) => Some(e as int),
                None => None,
            },
            timestamp: self.timestamp,
            summary: match self.summary {
                Some(s) => Some(s@),
                None => None,
            },
            failed: self.failed,
        }
    }
}

/// The scan of one line.
fn scan_one(f: Scanned, line: &Vec<char>, strict: bool) -> (r: Scanned)
    requires
        f.timestamp matches Some(t) ==> t.wf(),
    ensures
        r@ == scan_line(f@, line@, strict),
        r.timestamp matches Some(t) ==> t.wf(),
{
    proof {
        reveal_strlit("command: ");
        reveal_strlit("exit_code: ");
        reveal_strlit("timestamp: ");
        reveal_strlit("summary: ");
    }
    let command_key = chars_of("command: ");
    let exit_code_key = chars_of("exit_code: ");
    let timestamp_key = chars_of("timestamp: ");
    let summary_key = chars_of("summary: ");
    let mut r = f;
    if starts_with(line, &command_key) {
        let rest = slice_of(line, 9, line.len());
        assert(rest@ == line@.skip(9));
        r.command = Some(trimmed(&rest));
    } else if starts_with(line, &exit_code_key) {
        let rest = slice_of(line, 11, line.len());
        assert(rest@ == line@.skip(11));
        let value = parse_i32_chars(&trimmed(&rest));
        if strict && value.is_none() {
            r.failed = true;
        }
        r.exit_code = value;
    } else if starts_with(line, &timestamp_key) {
        let rest = slice_of(line, 11, line.len());
        assert(rest@ == line@.skip(11));
        let text = string_of(&trimmed(&rest));
        r.timestamp = parse_rfc3339(text.as_str());
    } else if starts_with(line, &summary_key) {
        let rest = slice_of(line, 9, line.len());
        assert(rest@ == line@.skip(9));
        let value = trimmed(&rest);
        r.summary = if value.len() == 0 {
            None
        } else {
            Some(value)
        };
    }
    r
}

/// The scan of the lines `ls`, in order.
pub(crate) fn scan_all(ls: &Vec<Vec<char>>, strict: bool) -> (r: Scanned)
    ensures
        r@ == scan_lines(views(ls@), no_fields(), strict),
        r.timestamp matches Some(t) ==> t.wf(),
{
    let mut f = Scanned {
        command: None,
        exit_code: None,
        timestamp: None,
        summary: None,
        failed: false,
    };
    let mut i: usize = 0;
    assert(views(ls@).skip(0) == views(ls@));
    while i < ls.len()
        invariant
            i <= ls.len(),
            f.timestamp matches Some(t) ==> t.wf(),
            scan_lines(views(ls@), no_fields(), strict) == scan_lines(
                views(ls@).skip(i as int),
                f@,
                strict,
            ),
        decreases ls.len() - i,
    {
        let ghost rest = views(ls@).skip(i as int);
        assert(rest[0] == ls@[i as int]@);
        assert(rest.drop_first() == views(ls@).skip(i + 1));
        f = scan_one(f, &ls[i], strict);
        i += 1;
    }
    f
}

/// Where the header span of `v` ends, where `v` has a header.
pub(crate) fn header_end(v: &Vec<char>) -> (r: Option<usize>)
    ensures
        match r {
            Some(n) => has_header(v@) && n == header_len(v@) && n <= v.len(),
            None => !has_header(v@),
        },
{
    let start = chars_of("---CTX_GUARD_METADATA---");
    if !starts_with(v, &start) {
        return None;
    }
    let end = chars_of("---END_METADATA---");
    match find_first(v, &end) {
        Some(p) => {
            proof {
                crate::text::lemma_find_from(v@, end@, 0);
                assert(find(v@, end@) == p);
                assert(crate::text::occurs_at(v@, end@, p as int));
                assert(p + end@.len() <= v@.len());
            }
            let total = v.len();
            assert(p + end.len() <= total);
            Some(p + end.len())
        },
        None => None,
    }
}

/// The metadata that file contents carry, where they carry any.
pub fn parse_metadata(content: &str) -> (r: Option<CommandMetadata>)
    ensures
        match r {
            Some(m) => metadata_of(content@) == Some(m@) && m.timestamp.wf(),
            None => metadata_of(content@) is None,
        },
{
    let v = chars_of(content);
    let n = match header_end(&v) {
        Some(n) => n,
        None => {
            return None;
        },
    };
    let span = slice_of(&v, 0, n);
    assert(span@ == v@.take(n as int));
    let ls = split_lines(&span);
    let f = scan_all(&ls, true);
    if f.failed {
        return None;
    }
    match (f.command, f.exit_code, f.timestamp) {
        (Some(command), Some(exit_code), Some(timestamp)) => {
            let summary = match f.summary {
                Some(s) => Some(string_of(&s)),
                None => None,
            };
            Some(CommandMetadata { command: string_of(&command), exit_code, timestamp, summary })
        },
        _ => None,
    }
}

} // verus!
