use crate::clock::{
    lemma_stamp_round_trip, now, parse_stamp, stamp_of, stamp_shaped, stamp_text, stamp_value,
    LocalTime, Timestamp,
};
use crate::decimal::{all_digits, is_ascii_digit, is_digit};
use crate::text::{
    chars_of, ends_with, has_suffix, last_position, last_position_before,
    lemma_last_position_facts, lemma_last_position_is, lemma_split_last, push_all, push_str,
    slice_of, split, string_of,
};
use vstd::prelude::*;

verus! {

/// The most characters of a command that go into a file name.
pub const SLUG_LIMIT: usize = 50;

/// The extension of a record's file name.
pub open spec fn extension() -> Seq<char> {
    seq!['.', 't', 'x', 't']
}

/// Whether `c` is a character that a file name should not hold.
pub open spec fn is_unsafe(c: char) -> bool {
    c == ' ' || c == '/' || c == '\\' || c == '|' || c == '&' || c == ';' || c == '>' || c == '<'
        || c == '*' || c == '?' || c == '"' || c == '\''
}

/// `c`, or an underscore in its place where a file name should not hold it.
pub open spec fn slug_char(c: char) -> char {
    if is_unsafe(c) {
        '_'
    } else {
        c
    }
}

/// The slug of a command: its first 50 characters, each unsafe one replaced
/// by an underscore.
pub open spec fn slug_of(command: Seq<char>) -> Seq<char> {
    Seq::new(
        if command.len() <= SLUG_LIMIT {
            command.len()
        } else {
            SLUG_LIMIT as nat
        },
        |i: int| slug_char(command[i]),
    )
}

/// The file name of the record of `command` made at the local time `l`.
pub open spec fn filename_of(command: Seq<char>, l: LocalTime) -> Seq<char> {
    slug_of(command) + seq!['_'] + stamp_of(l) + extension()
}

/// The local time that a file name carries, where it carries one. The name
/// ends in the extension; what stands before the extension falls at its
/// underscores into at least three parts; the last two parts are eight
/// digits and six digits, and they name a day and a time of day.
pub open spec fn filename_time(name: Seq<char>) -> Option<LocalTime> {
    let parts = split(name.take(name.len() - 4), '_');
    if !has_suffix(name, extension()) || parts.len() < 3 {
        None
    } else {
        let date = parts[parts.len() - 2];
        let time = parts[parts.len() - 1];
        if date.len() != 8 || time.len() != 6 || !all_digits(date) || !all_digits(time) {
            None
        } else {
            stamp_value(date + seq!['_'] + time)
        }
    }
}

/// The last two parts of a stem are found from its last two underscores.
pub proof fn lemma_last_two_parts(stem: Seq<char>)
    ensures
        split(stem, '_').len() >= 3 <==> (last_position(stem, '_') >= 0 && last_position(
            stem.take(last_position(stem, '_')),
            '_',
        ) >= 0),
        split(stem, '_').len() >= 3 ==> {
            let j = last_position(stem, '_');
            let i = last_position(stem.take(j), '_');
            let parts = split(stem, '_');
            &&& 0 <= i < j < stem.len()
            &&& parts[parts.len() - 1] == stem.skip(j + 1)
            &&& parts[parts.len() - 2] == stem.subrange(i + 1, j)
            &&& parts[parts.len() - 2] + seq!['_'] + parts[parts.len() - 1] == stem.skip(i + 1)
        },
{
    let j = last_position(stem, '_');
    lemma_split_last(stem, '_');
    lemma_last_position_facts(stem, '_');
    if j >= 0 {
        let front = stem.take(j);
        let i = last_position(front, '_');
        lemma_split_last(front, '_');
        lemma_last_position_facts(front, '_');
        if i >= 0 {
            assert(front.skip(i + 1) =~= stem.subrange(i + 1, j));
            assert(stem.subrange(i + 1, j) + seq!['_'] + stem.skip(j + 1) =~= stem.skip(i + 1));
        }
    }
}

fn extension_chars() -> (v: Vec<char>)
    ensures
        v@ == extension(),
{
    let mut v: Vec<char> = Vec::new();
    v.push('.');
    v.push('t');
    v.push('x');
    v.push('t');
    assert(v@ =~= extension());
    v
}

fn replace_unsafe(c: char) -> (r: char)
    ensures
        r == slug_char(c),
{
    if c == ' ' || c == '/' || c == '\\' || c == '|' || c == '&' || c == ';' || c == '>' || c
        == '<' || c == '*' || c == '?' || c == '"' || c == '\'' {
        '_'
    } else {
        c
    }
}

/// The slug of `command`.
pub fn slug(command: &str) -> (r: String)
    ensures
        r@ == slug_of(command@),
        r@.len() <= SLUG_LIMIT,
{
    let v = chars_of(command);
    let n: usize = if v.len() <= SLUG_LIMIT {
        v.len()
    } else {
        SLUG_LIMIT
    };
    let mut out: Vec<char> = Vec::new();
    let mut i: usize = 0;
    while i < n
        invariant
            i <= n <= v.len(),
            out@.len() == i,
            forall|k: int| 0 <= k < i ==> out@[k] == slug_char(v@[k]),
        decreases n - i,
    {
        out.push(replace_unsafe(v[i]));
        i += 1;
    }
    assert(out@ =~= slug_of(command@));
    string_of(&out)
}

/// The file name for the record of `command` made at `now`: the slug, an
/// underscore, the local time as `YYYYMMDD_HHMMSS`, and the extension.
pub fn encode_filename(command: &str, now: &Timestamp) -> (r: String)
    requires
        now.wf(),
    ensures
        r@ == filename_of(command@, now.local),
{
    let s = slug(command);
    let mut out = chars_of(s.as_str());
    out.push('_');
    let stamp = stamp_text(&now.local);
    push_str(&mut out, stamp.as_str());
    let ext = extension_chars();
    push_all(&mut out, &ext);
    string_of(&out)
}

/// A file name for the record of `command` made now, by the machine's clock.
/// There is none where the clock shows a year that four digits cannot write.
pub fn generate_output_filename(command: &str) -> (r: Option<String>)
    ensures
        r matches Some(name) ==> exists|t: Timestamp|
            t.wf() && name@ == #[trigger] filename_of(command@, t.local),
{
    match now() {
        Some(t) => Some(encode_filename(command, &t)),
        None => None,
    }
}

fn all_ascii_digits(v: &Vec<char>, from: usize, to: usize) -> (b: bool)
    requires
        from <= to <= v.len(),
    ensures
        b == all_digits(v@.subrange(from as int, to as int)),
{
    let mut i: usize = from;
    while i < to
        invariant
            from <= i <= to <= v.len(),
            forall|k: int| from <= k < i ==> is_digit(#[trigger] v@[k]),
        decreases to - i,
    {
        if !is_ascii_digit(v[i]) {
            assert(!is_digit(v@.subrange(from as int, to as int)[i - from]));
            return false;
        }
        i += 1;
    }
    assert forall|k: int| 0 <= k < to - from implies is_digit(
        #[trigger] v@.subrange(from as int, to as int)[k],
    ) by {
        assert(v@.subrange(from as int, to as int)[k] == v@[k + from]);
    }
    true
}

/// The local time that the file name `name` carries, where it carries one.
pub fn decode_filename(name: &str) -> (r: Option<LocalTime>)
    ensures
        r == filename_time(name@),
        r matches Some(l) ==> l.wf(),
{
    let v = chars_of(name);
    let ext = extension_chars();
    if !ends_with(&v, &ext) {
        return None;
    }
    let end: usize = v.len() - 4;
    let ghost stem = v@.take(end as int);
    proof {
        lemma_last_two_parts(stem);
    }
    let j = match last_position_before(&v, '_', end) {
        Some(j) => j,
        None => {
            return None;
        },
    };
    assert(stem.take(j as int) == v@.take(j as int));
    let i = match last_position_before(&v, '_', j) {
        Some(i) => i,
        None => {
            return None;
        },
    };
    assert(stem.subrange(i + 1, j as int) == v@.subrange(i + 1, j as int));
    assert(stem.skip(j + 1) == v@.subrange(j + 1, end as int));
    if j - (i + 1) != 8 || end - (j + 1) != 6 {
        return None;
    }
    if !all_ascii_digits(&v, i + 1, j) || !all_ascii_digits(&v, j + 1, end) {
        return None;
    }
    let stamp = slice_of(&v, i + 1, end);
    let text = string_of(&stamp);
    proof {
        let s = stem.skip(i + 1);
        assert(text@ == s);
        assert(s.len() == 15);
        assert(s.subrange(0, 8) == v@.subrange(i + 1, j as int));
        assert(s.subrange(9, 15) == v@.subrange(j + 1, end as int));
        assert(s[8] == v@[j as int]);
        assert(stamp_shaped(s));
    }
    let t = text.as_str();
    assert(t@ == stem.skip(i + 1));
    parse_stamp(t)
}

/// Decoding an encoded file name gives back the local time at which it was
/// made, to the second, whatever the command was. The slug is never longer
/// than 50 characters.
pub proof fn law_decode_of_encode(command: Seq<char>, t: Timestamp)
    requires
        t.wf(),
    ensures
        filename_time(filename_of(command, t.local)) == Some(t.local.spec_whole_second()),
        slug_of(command).len() <= SLUG_LIMIT,
{
    let l = t.local;
    let slug = slug_of(command);
    let stamp = stamp_of(l);
    let name = filename_of(command, l);
    lemma_stamp_round_trip(l);
    let k = slug.len() as int;
    assert(stamp.len() == 15);
    assert(name.len() == k + 20);
    assert(name.subrange(name.len() - 4, name.len() as int) =~= extension());
    let stem = name.take(name.len() - 4);
    assert(stem =~= slug + seq!['_'] + stamp);
    lemma_last_two_parts(stem);
    assert forall|i: int| k + 9 < i < stem.len() implies stem[i] != '_' by {
        assert(stem[i] == stamp[i - k - 1]);
        assert(is_digit(stamp[i - k - 1]));
    }
    assert(stem[k + 9] == stamp[8]);
    lemma_last_position_is(stem, '_', k + 9);
    let front = stem.take(k + 9);
    assert forall|i: int| k < i < front.len() implies front[i] != '_' by {
        assert(front[i] == stamp[i - k - 1]);
        assert(is_digit(stamp[i - k - 1]));
    }
    assert(front[k] == '_');
    lemma_last_position_is(front, '_', k);
    assert(stem.skip(k + 1) =~= stamp);
    assert(stem.subrange(k + 1, k + 9) =~= stamp.subrange(0, 8));
    assert(stem.skip(k + 10) =~= stamp.subrange(9, 15));
}

/// Whether `name` is the name of a record's file: it ends in the extension.
pub fn is_record_name(name: &str) -> (b: bool)
    ensures
        b == has_suffix(name@, extension()),
{
    let v = chars_of(name);
    let ext = extension_chars();
    ends_with(&v, &ext)
}

} // verus!
