use crate::clock::{is_rfc3339_char, lemma_rfc3339_chars, lemma_rfc3339_round_trip, rfc3339_of};
use crate::decimal::{all_digits, decimal, is_digit, lemma_decimal, parse_i32, signed_decimal};
use crate::metadata::{
    command_key, command_line, end_marker, exit_code_key, exit_code_line, flatten, has_header, header_len,
    header_lines, header_of, metadata_of, no_fields, scan_line, scan_lines, start_marker,
    summary_key, summary_line, summary_text, timestamp_key, timestamp_line, Fields, MetadataView,
};
use crate::text::{
    find, has_prefix, is_space, lemma_find_after_line, lemma_find_from, lemma_find_is,
    lemma_find_none, lemma_lines_after_line, lemma_lines_of_one, lemma_trim_fixed, lines,
    occurs_at, strip_cr, trim,
};
use crate::filename::{filename_of, filename_time, law_decode_of_encode};
use crate::output::{after_attach, body_of, record_of, strip_line_feeds, with_summary};
use vstd::prelude::*;

verus! {

/// Whether `s` holds no line feed.
pub open spec fn is_one_line(s: Seq<char>) -> bool {
    forall|j: int| 0 <= j < s.len() ==> s[j] != '\n'
}

/// Whether `s` holds the end marker nowhere.
pub open spec fn is_marker_free(s: Seq<char>) -> bool {
    find(s, end_marker()) == -1
}

/// What the markers and keys are made of.
pub proof fn lemma_markers()
    ensures
        start_marker().len() == 24,
        end_marker().len() == 18,
        command_key().len() == 9,
        exit_code_key().len() == 11,
        timestamp_key().len() == 11,
        summary_key().len() == 9,
        start_marker()[0] == '-',
        end_marker()[0] == '-',
        end_marker()[3] == 'E',
        command_key()[0] == 'c',
        exit_code_key()[0] == 'e',
        timestamp_key()[0] == 't',
        summary_key()[0] == 's',
        start_marker().last() == '-',
        end_marker().last() == '-',
        command_key().last() == ' ',
        summary_key().last() == ' ',
        is_one_line(start_marker()),
        is_one_line(end_marker()),
        is_one_line(command_key()),
        is_one_line(exit_code_key()),
        is_one_line(timestamp_key()),
        is_one_line(summary_key()),
        forall|j: int| 0 <= j < 9 ==> command_key()[j] != '-',
        forall|j: int| 0 <= j < 9 ==> summary_key()[j] != '-',
        forall|j: int| 0 <= j < 11 ==> exit_code_key()[j] != 'E',
        forall|j: int| 0 <= j < 11 ==> timestamp_key()[j] != 'E',
        forall|j: int| 3 <= j < 9 ==> start_marker()[j] != 'E',
{
    reveal_strlit("---CTX_GUARD_METADATA---");
    reveal_strlit("---END_METADATA---");
    reveal_strlit("command: ");
    reveal_strlit("exit_code: ");
    reveal_strlit("timestamp: ");
    reveal_strlit("summary: ");
}

/// A text without a capital E holds no end marker.
pub proof fn lemma_marker_needs_e(s: Seq<char>)
    requires
        forall|j: int| 0 <= j < s.len() ==> s[j] != 'E',
    ensures
        is_marker_free(s),
{
    lemma_markers();
    let p = end_marker();
    assert forall|i: int| 0 <= i implies !occurs_at(s, p, i) by {
        if occurs_at(s, p, i) {
            assert(s.subrange(i, i + p.len())[3] == s[i + 3]);
        }
    }
    lemma_find_none(s, p);
}

/// The start marker holds no end marker.
pub proof fn lemma_start_marker_free()
    ensures
        is_marker_free(start_marker()),
{
    lemma_markers();
    let s = start_marker();
    let p = end_marker();
    assert forall|i: int| 0 <= i implies !occurs_at(s, p, i) by {
        if occurs_at(s, p, i) {
            assert(0 <= i <= 6);
            let w = s.subrange(i, i + p.len());
            assert(w[3] == s[i + 3]);
            assert(w[3] == 'E');
            reveal_strlit("---CTX_GUARD_METADATA---");
            assert(s[3] != 'E' && s[4] != 'E' && s[5] != 'E' && s[6] != 'E' && s[7] != 'E' && s[8]
                != 'E' && s[9] != 'E');
        }
    }
    lemma_find_none(s, p);
}

/// A key without a hyphen, followed by a value that holds no end marker,
/// holds none.
pub proof fn lemma_field_marker_free(key: Seq<char>, value: Seq<char>)
    requires
        forall|j: int| 0 <= j < key.len() ==> key[j] != '-',
        is_marker_free(value),
    ensures
        is_marker_free(key + value),
{
    lemma_markers();
    let s = key + value;
    let p = end_marker();
    let k = key.len() as int;
    lemma_find_from(value, p, 0);
    assert forall|i: int| 0 <= i implies !occurs_at(s, p, i) by {
        if occurs_at(s, p, i) {
            assert(s.subrange(i, i + p.len())[0] == s[i]);
            if i < k {
                assert(s[i] == key[i]);
            } else {
                assert(value.subrange(i - k, i - k + p.len()) =~= s.subrange(i, i + p.len()));
                assert(occurs_at(value, p, i - k));
            }
        }
    }
    lemma_find_none(s, p);
}

/// The decimal form of a number of 32 bits holds digits and at most a
/// minus sign in front, and reads back as the number.
pub proof fn lemma_signed_decimal(n: int)
    requires
        i32::MIN <= n <= i32::MAX,
    ensures
        signed_decimal(n).len() >= 1,
        forall|j: int|
            0 <= j < signed_decimal(n).len() ==> is_digit(#[trigger] signed_decimal(n)[j])
                || signed_decimal(n)[j] == '-',
        is_digit(signed_decimal(n).last()),
        parse_i32(signed_decimal(n)) == Some(n),
{
    let s = signed_decimal(n);
    if n < 0 {
        let d = decimal((-n) as nat);
        lemma_decimal((-n) as nat);
        assert(s.drop_first() =~= d);
        assert(s[0] == '-');
        assert forall|j: int| 0 <= j < s.len() implies is_digit(#[trigger] s[j]) || s[j]
            == '-' by {
            if j > 0 {
                assert(s[j] == d[j - 1]);
            }
        }
        assert(s.last() == d.last());
    } else {
        lemma_decimal(n as nat);
        assert(is_digit(s[0]));
    }
}

/// Whether a header can carry this metadata and give it back: the timestamp
/// is valid, the exit code is a number of 32 bits, and command and summary
/// neither hold the end marker nor break the line.
pub open spec fn is_storable(m: MetadataView) -> bool {
    &&& m.timestamp.wf()
    &&& i32::MIN <= m.exit_code <= i32::MAX
    &&& is_one_line(m.command)
    &&& is_marker_free(m.command)
    &&& trim(m.command) == m.command
    &&& is_marker_free(summary_text(m.summary))
}

/// The lines of the header of `m`.
pub open spec fn lines_of_header(m: MetadataView) -> Seq<Seq<char>> {
    seq![
        start_marker(),
        command_line(m),
        exit_code_line(m),
        timestamp_line(m),
        summary_line(m),
        end_marker(),
    ]
}

/// None of the four field lines breaks, holds the end marker or ends in a
/// carriage return.
pub proof fn lemma_field_lines(m: MetadataView)
    requires
        is_storable(m),
    ensures
        is_one_line(command_line(m)),
        is_one_line(exit_code_line(m)),
        is_one_line(timestamp_line(m)),
        is_one_line(summary_line(m)),
        is_marker_free(command_line(m)),
        is_marker_free(exit_code_line(m)),
        is_marker_free(timestamp_line(m)),
        is_marker_free(summary_line(m)),
        strip_cr(command_line(m)) == command_line(m),
        strip_cr(exit_code_line(m)) == exit_code_line(m),
        strip_cr(timestamp_line(m)) == timestamp_line(m),
        strip_cr(summary_line(m)) == summary_line(m),
{
    lemma_markers();
    reveal_strlit("command: ");
    reveal_strlit("exit_code: ");
    reveal_strlit("timestamp: ");
    reveal_strlit("summary: ");
    let c = m.command;
    let e = signed_decimal(m.exit_code);
    let t = rfc3339_of(m.timestamp);
    let s = summary_text(m.summary);
    lemma_signed_decimal(m.exit_code);
    lemma_rfc3339_chars(m.timestamp);
    lemma_trim_fixed(c);
    // command
    let l1 = command_line(m);
    assert forall|j: int| 0 <= j < l1.len() implies l1[j] != '\n' by {
        if j >= 9 {
            assert(l1[j] == c[j - 9]);
        }
    }
    lemma_field_marker_free(command_key(), c);
    assert(l1.last() != '\r') by {
        if c.len() > 0 {
            assert(l1.last() == c.last());
        }
    }
    // exit code
    let l2 = exit_code_line(m);
    assert forall|j: int| 0 <= j < l2.len() implies l2[j] != '\n' && l2[j] != 'E' by {
        if j >= 11 {
            assert(l2[j] == e[j - 11]);
            assert(is_digit(e[j - 11]) || e[j - 11] == '-');
        }
    }
    lemma_marker_needs_e(l2);
    assert(l2.last() == e.last());
    // timestamp
    let l3 = timestamp_line(m);
    assert forall|j: int| 0 <= j < l3.len() implies l3[j] != '\n' && l3[j] != 'E' by {
        if j >= 11 {
            assert(l3[j] == t[j - 11]);
            assert(is_rfc3339_char(t[j - 11]));
        }
    }
    lemma_marker_needs_e(l3);
    assert(l3.last() == t.last());
    assert(is_rfc3339_char(t[t.len() - 1]));
    // summary
    let l4 = summary_line(m);
    assert forall|j: int| 0 <= j < l4.len() implies l4[j] != '\n' && l4[j] != '\r' by {
        if j >= 9 {
            assert(l4[j] == s[j - 9]);
        }
    }
    lemma_field_marker_free(summary_key(), s);
}

/// The lines `ls`, each with a line feed behind it, and then `last`.
pub open spec fn lines_then(ls: Seq<Seq<char>>, last: Seq<char>) -> Seq<char>
    decreases ls.len(),
{
    if ls.len() == 0 {
        last
    } else {
        ls[0] + seq!['\n'] + lines_then(ls.drop_first(), last)
    }
}

/// The characters of the lines `ls` and their line feeds, counted.
pub open spec fn lines_len(ls: Seq<Seq<char>>) -> int
    decreases ls.len(),
{
    if ls.len() == 0 {
        0
    } else {
        ls[0].len() + 1 + lines_len(ls.drop_first())
    }
}

/// Behind lines that do not hold a pattern, the pattern is found where it
/// is found in what follows them.
pub proof fn lemma_find_behind_lines(ls: Seq<Seq<char>>, last: Seq<char>, p: Seq<char>)
    requires
        p.len() > 0,
        forall|j: int| 0 <= j < p.len() ==> p[j] != '\n',
        forall|i: int| 0 <= i < ls.len() ==> find(#[trigger] ls[i], p) == -1,
        find(last, p) >= 0,
    ensures
        find(lines_then(ls, last), p) == lines_len(ls) + find(last, p),
        lines_then(ls, last).len() == lines_len(ls) + last.len(),
        lines_len(ls) >= 0,
    decreases ls.len(),
{
    if ls.len() > 0 {
        let rest = ls.drop_first();
        assert forall|i: int| 0 <= i < rest.len() implies find(#[trigger] rest[i], p) == -1 by {
            assert(rest[i] == ls[i + 1]);
        }
        lemma_find_behind_lines(rest, last, p);
        assert(find(ls[0], p) == -1);
        lemma_find_after_line(ls[0], lines_then(rest, last), p);
        assert(find(lines_then(rest, last), p) >= 0) by {
            lemma_find_from(last, p, 0);
        }
    }
}

/// Lines that do not break, each with a line feed behind it, and a last
/// line are these lines, each without a carriage return at its end.
pub proof fn lemma_lines_of_lines(ls: Seq<Seq<char>>, last: Seq<char>)
    requires
        forall|i: int| 0 <= i < ls.len() ==> is_one_line(#[trigger] ls[i]),
        forall|i: int| 0 <= i < ls.len() ==> strip_cr(#[trigger] ls[i]) == ls[i],
        is_one_line(last),
        last.len() > 0,
    ensures
        lines(lines_then(ls, last)) == ls.push(last),
    decreases ls.len(),
{
    if ls.len() == 0 {
        lemma_lines_of_one(last);
        assert(ls.push(last) =~= seq![last]);
    } else {
        let rest = ls.drop_first();
        assert forall|i: int| 0 <= i < rest.len() implies is_one_line(#[trigger] rest[i])
            && strip_cr(rest[i]) == rest[i] by {
            assert(rest[i] == ls[i + 1]);
        }
        lemma_lines_of_lines(rest, last);
        assert(is_one_line(ls[0]));
        lemma_lines_after_line(ls[0], lines_then(rest, last));
        assert(seq![ls[0]] + rest.push(last) =~= ls.push(last));
    }
}

/// The lines of the header of `m` before the end marker.
pub open spec fn field_lines(m: MetadataView) -> Seq<Seq<char>> {
    seq![start_marker(), command_line(m), exit_code_line(m), timestamp_line(m), summary_line(m)]
}

/// The header of `m` and what follows it, as lines say it.
#[verifier::rlimit(30)]
pub proof fn lemma_header_by_lines(m: MetadataView, tail: Seq<char>)
    ensures
        header_of(m) + tail == lines_then(field_lines(m), end_marker() + seq!['\n'] + tail),
        header_of(m).drop_last() == lines_then(field_lines(m), end_marker()),
        header_of(m).len() == lines_len(field_lines(m)) + end_marker().len() + 1,
{
    let ls = field_lines(m);
    let nl = seq!['\n'];
    let l1 = ls.drop_first();
    let l2 = l1.drop_first();
    let l3 = l2.drop_first();
    let l4 = l3.drop_first();
    let l5 = l4.drop_first();
    assert(l5.len() == 0);
    assert(l1[0] == command_line(m) && l2[0] == exit_code_line(m) && l3[0] == timestamp_line(m)
        && l4[0] == summary_line(m));
    let last = end_marker() + nl + tail;
    assert(lines_then(l5, last) == last);
    assert(lines_then(l4, last) == summary_line(m) + nl + last);
    assert(lines_then(l3, last) == timestamp_line(m) + nl + lines_then(l4, last));
    assert(lines_then(l2, last) == exit_code_line(m) + nl + lines_then(l3, last));
    assert(lines_then(l1, last) == command_line(m) + nl + lines_then(l2, last));
    assert(lines_then(ls, last) == start_marker() + nl + lines_then(l1, last));
    assert(header_of(m) + tail =~= lines_then(ls, last));
    let end = end_marker();
    assert(lines_then(l5, end) == end);
    assert(lines_then(l4, end) == summary_line(m) + nl + end);
    assert(lines_then(l3, end) == timestamp_line(m) + nl + lines_then(l4, end));
    assert(lines_then(l2, end) == exit_code_line(m) + nl + lines_then(l3, end));
    assert(lines_then(l1, end) == command_line(m) + nl + lines_then(l2, end));
    assert(lines_then(ls, end) == start_marker() + nl + lines_then(l1, end));
    assert(header_of(m).drop_last() =~= lines_then(ls, end));
    assert(lines_len(l5) == 0);
    assert(lines_len(l4) == summary_line(m).len() + 1);
    assert(lines_len(l3) == timestamp_line(m).len() + 1 + lines_len(l4));
    assert(lines_len(l2) == exit_code_line(m).len() + 1 + lines_len(l3));
    assert(lines_len(l1) == command_line(m).len() + 1 + lines_len(l2));
    assert(lines_len(ls) == start_marker().len() + 1 + lines_len(l1));
}

/// In a file that begins with the header of `m`, the header span is that
/// header without its last line feed, and its lines are the lines of the
/// header, whatever follows.
#[verifier::rlimit(30)]
pub proof fn lemma_header_span(m: MetadataView, tail: Seq<char>)
    requires
        is_storable(m),
    ensures
        has_header(header_of(m) + tail),
        header_len(header_of(m) + tail) == header_of(m).len() - 1,
        header_lines(header_of(m) + tail) == lines_of_header(m),
{
    let ls = field_lines(m);
    let end = end_marker();
    let last = end + seq!['\n'] + tail;
    let content = header_of(m) + tail;
    lemma_header_by_lines(m, tail);
    assert(end.len() == 18 && is_one_line(end) && strip_cr(start_marker()) == start_marker()
        && is_one_line(start_marker()) && start_marker().len() == 24) by {
        lemma_markers();
    }
    lemma_field_lines(m);
    lemma_start_marker_free();
    assert(find(last, end) == 0) by {
        assert(last.subrange(0, 18) =~= end);
        lemma_find_is(last, end, 0);
    }
    lemma_find_behind_lines(ls, last, end);
    lemma_lines_of_lines(ls, end);
    assert(has_prefix(content, start_marker())) by {
        assert(content.subrange(0, 24) =~= start_marker());
    }
    assert(content.take(header_len(content)) =~= header_of(m).drop_last());
    assert(ls.push(end) =~= lines_of_header(m));
}

/// The summary that a scan reads from the header of a record with the
/// summary `summary`: the summary on one line and trimmed, or none where
/// nothing is left of it.
pub open spec fn kept_summary(summary: Option<Seq<char>>) -> Option<Seq<char>> {
    if trim(summary_text(summary)).len() == 0 {
        None
    } else {
        Some(trim(summary_text(summary)))
    }
}

/// What a scan finds in the lines of the header of `m`.
#[verifier::rlimit(30)]
pub proof fn lemma_scan_header(m: MetadataView, strict: bool)
    requires
        is_storable(m),
        m.timestamp.offset % 60 == 0,
    ensures
        scan_lines(lines_of_header(m), no_fields(), strict) == (Fields {
            command: Some(m.command),
            exit_code: Some(m.exit_code),
            timestamp: Some(m.timestamp),
            summary: kept_summary(m.summary),
            failed: false,
        }),
{
    lemma_markers();
    let ls = lines_of_header(m);
    let f0 = no_fields();
    // the start marker
    let f1 = scan_line(f0, ls[0], strict);
    assert(f1 == f0) by {
        lemma_no_key(start_marker());
    }
    // the command
    let f2 = scan_line(f1, ls[1], strict);
    assert(f2 == Fields { command: Some(m.command), ..f1 }) by {
        assert(command_line(m).subrange(0, 9) =~= command_key());
        assert(command_line(m).skip(9) =~= m.command);
    }
    // the exit code
    let f3 = scan_line(f2, ls[2], strict);
    assert(f3 == Fields { exit_code: Some(m.exit_code), ..f2 }) by {
        let e = signed_decimal(m.exit_code);
        lemma_signed_decimal(m.exit_code);
        lemma_other_key(exit_code_line(m), command_key());
        assert(exit_code_line(m).subrange(0, 11) =~= exit_code_key());
        assert(exit_code_line(m).skip(11) =~= e);
        assert(!is_space(e[0]) && !is_space(e.last()));
        lemma_trim_fixed(e);
    }
    // the timestamp
    let f4 = scan_line(f3, ls[3], strict);
    assert(f4 == Fields { timestamp: Some(m.timestamp), ..f3 }) by {
        let t = rfc3339_of(m.timestamp);
        lemma_rfc3339_chars(m.timestamp);
        lemma_rfc3339_round_trip(m.timestamp);
        lemma_other_key(timestamp_line(m), command_key());
        lemma_other_key(timestamp_line(m), exit_code_key());
        assert(timestamp_line(m).subrange(0, 11) =~= timestamp_key());
        assert(timestamp_line(m).skip(11) =~= t);
        assert(is_rfc3339_char(t[0]) && is_rfc3339_char(t[t.len() - 1]));
        lemma_trim_fixed(t);
    }
    // the summary
    let f5 = scan_line(f4, ls[4], strict);
    assert(f5 == Fields { summary: kept_summary(m.summary), ..f4 }) by {
        lemma_other_key(summary_line(m), command_key());
        lemma_other_key(summary_line(m), exit_code_key());
        lemma_other_key(summary_line(m), timestamp_key());
        assert(summary_line(m).subrange(0, 9) =~= summary_key());
        assert(summary_line(m).skip(9) =~= summary_text(m.summary));
    }
    // the end marker
    let f6 = scan_line(f5, ls[5], strict);
    assert(f6 == f5) by {
        lemma_no_key(end_marker());
    }
    let l1 = ls.drop_first();
    let l2 = l1.drop_first();
    let l3 = l2.drop_first();
    let l4 = l3.drop_first();
    let l5 = l4.drop_first();
    let l6 = l5.drop_first();
    assert(l1[0] == ls[1] && l2[0] == ls[2] && l3[0] == ls[3] && l4[0] == ls[4] && l5[0]
        == ls[5] && l6.len() == 0);
    assert(scan_lines(l6, f6, strict) == f6);
    assert(scan_lines(l5, f5, strict) == f6);
    assert(scan_lines(l4, f4, strict) == f6);
    assert(scan_lines(l3, f3, strict) == f6);
    assert(scan_lines(l2, f2, strict) == f6);
    assert(scan_lines(l1, f1, strict) == f6);
    assert(scan_lines(ls, f0, strict) == f6);
}

/// A line that begins with a hyphen begins with no key.
pub proof fn lemma_no_key(text: Seq<char>)
    requires
        text.len() > 0,
        text[0] == '-',
    ensures
        !has_prefix(text, command_key()),
        !has_prefix(text, exit_code_key()),
        !has_prefix(text, timestamp_key()),
        !has_prefix(text, summary_key()),
{
    lemma_markers();
    lemma_other_key(text, command_key());
    lemma_other_key(text, exit_code_key());
    lemma_other_key(text, timestamp_key());
    lemma_other_key(text, summary_key());
}

/// A line does not begin with a key whose first character is another.
pub proof fn lemma_other_key(text: Seq<char>, key: Seq<char>)
    requires
        text.len() > 0,
        key.len() > 0,
        text[0] != key[0],
    ensures
        !has_prefix(text, key),
{
    if has_prefix(text, key) {
        assert(text.subrange(0, key.len() as int)[0] == text[0]);
    }
}

/// What the contents of a record carry: the metadata that it was made
/// with, the summary as a scan reads it.
pub proof fn lemma_metadata_of_record(m: MetadataView, body: Seq<char>)
    requires
        is_storable(m),
        m.timestamp.offset % 60 == 0,
    ensures
        metadata_of(record_of(Some(m), body)) == Some(
            MetadataView { summary: kept_summary(m.summary), ..m },
        ),
        metadata_of(header_of(m)) == Some(MetadataView { summary: kept_summary(m.summary), ..m }),
{
    let tail = seq!['\n', '\n'] + body;
    assert(record_of(Some(m), body) =~= header_of(m) + tail);
    lemma_header_span(m, tail);
    lemma_scan_header(m, true);
    assert(header_of(m) =~= header_of(m) + Seq::<char>::empty());
    lemma_header_span(m, Seq::empty());
}

/// Parsing the header that was written for metadata without a summary
/// gives that metadata back. This holds of metadata that a header can
/// carry: a command on one line, without white space at its ends and
/// without the end marker in it, and a timestamp with an offset of whole
/// minutes.
pub proof fn law_parse_of_format(m: MetadataView)
    requires
        is_storable(m),
        m.timestamp.offset % 60 == 0,
        m.summary is None,
    ensures
        metadata_of(header_of(m)) == Some(m),
{
    lemma_metadata_of_record(m, Seq::empty());
    assert(trim(Seq::<char>::empty()).len() == 0);
}

/// Line feeds in front of a body that does not begin with one are all that
/// is stripped.
pub proof fn lemma_strip_line_feeds(body: Seq<char>)
    requires
        body.len() == 0 || body[0] != '\n',
    ensures
        strip_line_feeds(seq!['\n', '\n', '\n'] + body) == body,
{
    let s3 = seq!['\n', '\n', '\n'] + body;
    let s2 = seq!['\n', '\n'] + body;
    let s1 = seq!['\n'] + body;
    assert(s3.drop_first() =~= s2);
    assert(s2.drop_first() =~= s1);
    assert(s1.drop_first() =~= body);
    assert(strip_line_feeds(body) == body);
    assert(strip_line_feeds(s1) == body);
    assert(strip_line_feeds(s2) == body);
}

/// Whether `summary` is a summary that a header gives back as it is: it is
/// not empty, is on one line without a carriage return, has no white space
/// at its ends and does not hold the end marker.
pub open spec fn is_plain_summary(summary: Seq<char>) -> bool {
    &&& summary.len() > 0
    &&& forall|j: int| 0 <= j < summary.len() ==> summary[j] != '\n' && summary[j] != '\r'
    &&& trim(summary) == summary
    &&& is_marker_free(summary)
}

/// What follows the header span of a record that was made with a body
/// which does not begin with a line feed is that body, once the line feeds
/// before it are stripped.
#[verifier::rlimit(30)]
pub proof fn lemma_body_of_record(m: MetadataView, body: Seq<char>)
    requires
        is_storable(m),
        body.len() == 0 || body[0] != '\n',
    ensures
        body_of(record_of(Some(m), body)) == body,
{
    let created = record_of(Some(m), body);
    let tail = seq!['\n', '\n'] + body;
    assert(created == header_of(m) + tail) by {
        assert(created =~= header_of(m) + tail);
    }
    lemma_header_span(m, tail);
    let n = header_of(m).len() as int;
    assert(header_of(m)[n - 1] == '\n');
    assert(created.skip(n - 1) =~= seq!['\n', '\n', '\n'] + body);
    lemma_strip_line_feeds(body);
}

/// Attaching a summary to a record writes the header anew with that
/// summary and leaves the rest of the metadata as the record was made with.
#[verifier::rlimit(30)]
pub proof fn lemma_with_summary(m: MetadataView, body: Seq<char>, summary: Seq<char>)
    requires
        is_storable(m),
        m.timestamp.offset % 60 == 0,
    ensures
        with_summary(record_of(Some(m), body), summary) == Some(
            record_of(
                Some(MetadataView { summary: Some(summary), ..m }),
                body_of(record_of(Some(m), body)),
            ),
        ),
{
    let created = record_of(Some(m), body);
    let tail = seq!['\n', '\n'] + body;
    assert(created == header_of(m) + tail) by {
        assert(created =~= header_of(m) + tail);
    }
    lemma_header_span(m, tail);
    lemma_scan_header(m, false);
}

/// Metadata that a header can carry can carry a plain summary too.
pub proof fn lemma_storable_with_summary(m: MetadataView, summary: Seq<char>)
    requires
        is_storable(m),
        is_plain_summary(summary),
    ensures
        is_storable(MetadataView { summary: Some(summary), ..m }),
        kept_summary(Some(summary)) == Some(summary),
{
    assert(flatten(summary) =~= summary);
}

/// After a record is made and a summary attached to it, the body is what
/// it was, character for character, and the file carries the new summary
/// with the command, exit code and timestamp that the record was made
/// with. This holds of metadata that a header can carry, of a summary that
/// a header gives back as it is, and of a body that does not begin with a
/// line feed.
pub proof fn law_attach_summary(m: MetadataView, body: Seq<char>, summary: Seq<char>)
    requires
        is_storable(m),
        m.timestamp.offset % 60 == 0,
        is_plain_summary(summary),
        body.len() == 0 || body[0] != '\n',
    ensures
        after_attach(record_of(Some(m), body), summary) == record_of(
            Some(MetadataView { summary: Some(summary), ..m }),
            body,
        ),
        metadata_of(after_attach(record_of(Some(m), body), summary)) == Some(
            MetadataView { summary: Some(summary), ..m },
        ),
{
    let updated = MetadataView { summary: Some(summary), ..m };
    lemma_body_of_record(m, body);
    lemma_with_summary(m, body, summary);
    lemma_storable_with_summary(m, summary);
    lemma_metadata_of_record(updated, body);
}

/// The two places where a record keeps its time agree: the time that its
/// file name carries is the local time of the timestamp in its header, to
/// the second.
pub proof fn law_name_and_header_agree(m: MetadataView, body: Seq<char>)
    requires
        is_storable(m),
        m.timestamp.offset % 60 == 0,
    ensures
        metadata_of(record_of(Some(m), body)) is Some,
        filename_time(filename_of(m.command, m.timestamp.local)) == Some(
            metadata_of(record_of(Some(m), body))->0.timestamp.local.spec_whole_second(),
        ),
{
    lemma_metadata_of_record(m, body);
    law_decode_of_encode(m.command, m.timestamp);
}

/// Attaching the same summary a second time changes nothing.
pub proof fn law_attach_twice(m: MetadataView, body: Seq<char>, summary: Seq<char>)
    requires
        is_storable(m),
        m.timestamp.offset % 60 == 0,
        is_plain_summary(summary),
        body.len() == 0 || body[0] != '\n',
    ensures
        after_attach(after_attach(record_of(Some(m), body), summary), summary) == after_attach(
            record_of(Some(m), body),
            summary,
        ),
{
    let updated = MetadataView { summary: Some(summary), ..m };
    law_attach_summary(m, body, summary);
    lemma_storable_with_summary(m, summary);
    law_attach_summary(updated, body, summary);
}

} // verus!
