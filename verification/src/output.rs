use crate::decimal::{decimal, push_decimal};
pub use crate::filename::generate_output_filename;
use crate::metadata::{
    has_header, header_end, header_len, header_lines, header_of, no_fields, scan_all, scan_lines,
    start_marker, MetadataView,
};
pub use crate::metadata::{format_metadata, parse_metadata, CommandMetadata};
pub use crate::recency::get_recent_commands;
pub use crate::retention::cleanup_old_files;
use crate::text::{
    chars_of, has_prefix, lines, push_all, push_str, slice_of, split_lines, string_of, views,
};
use vstd::prelude::*;

verus! {

/// What a record's file holds: the header, a blank line and the body; or the
/// body alone where there is no metadata.
pub open spec fn record_of(metadata: Option<MetadataView>, body: Seq<char>) -> Seq<char> {
    match metadata {
        Some(m) => header_of(m) + seq!['\n', '\n'] + body,
        None => body,
    }
}

/// `s` without the line feeds at its start.
pub open spec fn strip_line_feeds(s: Seq<char>) -> Seq<char>
    decreases s.len(),
{
    if s.len() > 0 && s[0] == '\n' {
        strip_line_feeds(s.drop_first())
    } else {
        s
    }
}

/// The body of a record: what follows the header span, without the line
/// feeds at its start.
pub open spec fn body_of(content: Seq<char>) -> Seq<char> {
    strip_line_feeds(content.skip(header_len(content)))
}

/// The contents of a record's file once `summary` is attached: the header
/// is written anew from the command, exit code and timestamp that a scan of
/// the old one finds, with the new summary, and the body follows. There is
/// no such rewrite where the file has no header or one of the three is not
/// found.
pub open spec fn with_summary(content: Seq<char>, summary: Seq<char>) -> Option<Seq<char>> {
    let f = scan_lines(header_lines(content), no_fields(), false);
    if !has_header(content) || f.command is None || f.exit_code is None || f.timestamp is None {
        None
    } else {
        Some(
            record_of(
                Some(
                    MetadataView {
                        command: f.command->0,
                        exit_code: f.exit_code->0,
                        timestamp: f.timestamp->0,
                        summary: Some(summary),
                    },
                ),
                body_of(content),
            ),
        )
    }
}

/// What the file holds after an attempt to attach `summary`: the rewrite, or
/// what it held before.
pub open spec fn after_attach(content: Seq<char>, summary: Seq<char>) -> Seq<char> {
    match with_summary(content, summary) {
        Some(c) => c,
        None => content,
    }
}

/// What is to be written to the file of a new record with the body
/// `content`.
pub fn output_file_content(content: &str, metadata: Option<&CommandMetadata>) -> (r: String)
    requires
        metadata matches Some(m) ==> m.timestamp.wf(),
    ensures
        r@ == record_of(
            match metadata {
                Some(m) => Some(m@),
                None => None,
            },
            content@,
        ),
{
    match metadata {
        Some(m) => {
            let header = format_metadata(m);
            let mut out = chars_of(header.as_str());
            out.push('\n');
            out.push('\n');
            push_str(&mut out, content);
            assert(out@ =~= header_of(m@) + seq!['\n', '\n'] + content@);
            string_of(&out)
        },
        None => {
            let out = chars_of(content);
            string_of(&out)
        },
    }
}

/// What is to be written to a record's file, which holds `content`, to
/// attach `summary` to it; `None` where the file is to be left as it is.
pub fn update_output_file_summary(content: &str, summary: &str) -> (r: Option<String>)
    ensures
        match r {
            Some(c) => with_summary(content@, summary@) == Some(c@),
            None => with_summary(content@, summary@) is None,
        },
{
    let v = chars_of(content);
    let n = match header_end(&v) {
        Some(n) => n,
        None => {
            return None;
        },
    };
    let span = slice_of(&v, 0, n);
    assert(span@ == v@.take(n as int));
    let ls = split_lines(&span);
    let f = scan_all(&ls, false);
    match (f.command, f.exit_code, f.timestamp) {
        (Some(command), Some(exit_code), Some(timestamp)) => {
            let updated = CommandMetadata {
                command: string_of(&command),
                exit_code,
                timestamp,
                summary: Some(string_of(&chars_of(summary))),
            };
            let mut start: usize = n;
            assert(v@.skip(n as int) == v@.skip(start as int));
            while start < v.len() && v[start] == '\n'
                invariant
                    n <= start <= v.len(),
                    strip_line_feeds(v@.skip(n as int)) == strip_line_feeds(
                        v@.skip(start as int),
                    ),
                decreases v.len() - start,
            {
                assert(v@.skip(start as int).drop_first() == v@.skip(start + 1));
                start += 1;
            }
            let body = slice_of(&v, start, v.len());
            assert(body@ == v@.skip(start as int));
            let header = format_metadata(&updated);
            let mut out = chars_of(header.as_str());
            out.push('\n');
            out.push('\n');
            push_all(&mut out, &body);
            assert(out@ =~= header_of(updated@) + seq!['\n', '\n'] + body@);
            Some(string_of(&out))
        },
        _ => None,
    }
}

/// Attaching a summary to a file that does not begin with the start marker
/// leaves it as it is, character for character.
pub proof fn law_attach_without_marker(content: Seq<char>, summary: Seq<char>)
    requires
        !has_prefix(content, start_marker()),
    ensures
        with_summary(content, summary) is None,
        after_attach(content, summary) == content,
{
}

/// The lines `ls` with a line feed between each two.
pub open spec fn join_lines(ls: Seq<Seq<char>>) -> Seq<char>
    decreases ls.len(),
{
    if ls.len() == 0 {
        Seq::empty()
    } else if ls.len() == 1 {
        ls[0]
    } else {
        join_lines(ls.drop_last()) + seq!['\n'] + ls.last()
    }
}

/// The note that stands for `count` lines left out.
pub open spec fn omitted_note(count: nat) -> Seq<char> {
    "\n\n... ("@ + decimal(count) + " lines omitted) ...\n\n"@
}

/// `output` cut down to its first and last `max_lines` lines with a note
/// between them of how many were left out; `output` itself where it has no
/// more than twice `max_lines` lines.
pub open spec fn fallback_of(output: Seq<char>, max_lines: nat) -> Seq<char> {
    let ls = lines(output);
    if ls.len() <= 2 * max_lines {
        output
    } else {
        join_lines(ls.take(max_lines as int)) + omitted_note((ls.len() - 2 * max_lines) as nat)
            + join_lines(ls.skip(ls.len() - max_lines))
    }
}

/// Appends the lines of `ls` from `from` up to `to`, with a line feed between
/// each two.
fn push_joined(out: &mut Vec<char>, ls: &Vec<Vec<char>>, from: usize, to: usize)
    requires
        from <= to <= ls.len(),
    ensures
        final(out)@ == old(out)@ + join_lines(views(ls@).subrange(from as int, to as int)),
{
    let ghost all = views(ls@);
    let mut i: usize = from;
    assert(all.subrange(from as int, from as int) =~= Seq::<Seq<char>>::empty());
    assert(out@ + Seq::<char>::empty() =~= out@);
    while i < to
        invariant
            from <= i <= to <= ls.len(),
            all == views(ls@),
            out@ == old(out)@ + join_lines(all.subrange(from as int, i as int)),
        decreases to - i,
    {
        let ghost done = all.subrange(from as int, i as int);
        let ghost next = all.subrange(from as int, i + 1);
        assert(next.drop_last() == done);
        assert(next.last() == ls@[i as int]@);
        if i > from {
            out.push('\n');
        }
        push_all(out, &ls[i]);
        proof {
            if i > from {
                assert(out@ =~= old(out)@ + (join_lines(done) + seq!['\n'] + next.last()));
            } else {
                assert(next.len() == 1);
                assert(done.len() == 0);
                assert(out@ =~= old(out)@ + next[0]);
            }
        }
        i += 1;
    }
}

/// `output` cut down to its first and last `max_lines` lines, for use where
/// no summary could be had.
pub fn format_fallback_output(output: &str, max_lines: usize) -> (r: String)
    ensures
        r@ == fallback_of(output@, max_lines as nat),
{
    let v = chars_of(output);
    let ls = split_lines(&v);
    let n = ls.len();
    if max_lines >= n || n - max_lines <= max_lines {
        return string_of(&v);
    }
    let mut out: Vec<char> = Vec::new();
    push_joined(&mut out, &ls, 0, max_lines);
    push_str(&mut out, "\n\n... (");
    push_decimal(&mut out, (n - max_lines - max_lines) as u64);
    push_str(&mut out, " lines omitted) ...\n\n");
    push_joined(&mut out, &ls, n - max_lines, n);
    proof {
        let all = views(ls@);
        assert(all.subrange(0, max_lines as int) == all.take(max_lines as int));
        assert(all.subrange(n - max_lines, n as int) == all.skip(n - max_lines));
        assert(out@ =~= fallback_of(output@, max_lines as nat));
    }
    string_of(&out)
}

/// Why a record could not be written. The text is that of the failure.
#[derive(Debug)]
pub enum OutputError {
    DirectoryError(String),
}

impl OutputError {
    /// The error in words.
    pub open spec fn spec_message(self) -> Seq<char> {
        match self {
            OutputError::DirectoryError(cause) => "Failed to create output directory: "@ + cause@,
        }
    }

    /// The error in words.
    pub fn message(&self) -> (r: String)
        ensures
            r@ == self.spec_message(),
    {
        match self {
            OutputError::DirectoryError(cause) => {
                let mut out = chars_of("Failed to create output directory: ");
                push_str(&mut out, cause.as_str());
                string_of(&out)
            },
        }
    }
}

} // verus!
