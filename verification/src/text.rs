use vstd::prelude::*;

verus! {

/// `String::push` of std: appends one character to the end of the string.
pub assume_specification[ String::push ](s: &mut String, c: char)
    ensures
        final(s)@ == old(s)@.push(c),
;

/// The characters of `s`, in order.
pub(crate) fn chars_of(s: &str) -> (v: Vec<char>)
    ensures
        v@ == s@,
{
    let mut v: Vec<char> = Vec::new();
    for c in it: s.chars()
        invariant
            v@ == it.seq().take(it.index() as int),
            it.seq() == s@,
    {
        v.push(c);
    }
    v
}

/// The string made of the characters of `v`, in order.
pub(crate) fn string_of(v: &Vec<char>) -> (s: String)
    ensures
        s@ == v@,
{
    let mut s = String::new();
    let mut i: usize = 0;
    while i < v.len()
        invariant
            i <= v.len(),
            s@ == v@.take(i as int),
        decreases v.len() - i,
    {
        s.push(v[i]);
        i += 1;
        assert(v@.take(i as int) == v@.take(i as int - 1).push(v@[i as int - 1]));
    }
    assert(v@.take(v.len() as int) == v@);
    s
}

/// Whether `c` is one of the characters with the Unicode property White_Space.
pub open spec fn is_space(c: char) -> bool {
    let n = c as u32;
    (0x09 <= n <= 0x0D) || n == 0x20 || n == 0x85 || n == 0xA0 || n == 0x1680 || (0x2000 <= n
        <= 0x200A) || n == 0x2028 || n == 0x2029 || n == 0x202F || n == 0x205F || n == 0x3000
}

pub(crate) fn is_whitespace(c: char) -> (b: bool)
    ensures
        b == is_space(c),
{
    let n: u32 = c as u32;
    (0x09 <= n && n <= 0x0D) || n == 0x20 || n == 0x85 || n == 0xA0 || n == 0x1680 || (0x2000 <= n
        && n <= 0x200A) || n == 0x2028 || n == 0x2029 || n == 0x202F || n == 0x205F || n == 0x3000
}

/// `s` without its leading white space.
pub open spec fn trim_start(s: Seq<char>) -> Seq<char>
    decreases s.len(),
{
    if s.len() > 0 && is_space(s[0]) {
        trim_start(s.drop_first())
    } else {
        s
    }
}

/// `s` without its trailing white space.
pub open spec fn trim_end(s: Seq<char>) -> Seq<char>
    decreases s.len(),
{
    if s.len() > 0 && is_space(s.last()) {
        trim_end(s.drop_last())
    } else {
        s
    }
}

/// `s` without leading and trailing white space.
pub open spec fn trim(s: Seq<char>) -> Seq<char> {
    trim_end(trim_start(s))
}

/// Trimming the start skips the white space up to the first character that
/// is none.
pub proof fn lemma_trim_start_skip(s: Seq<char>, k: int)
    requires
        0 <= k <= s.len(),
        forall|i: int| 0 <= i < k ==> is_space(#[trigger] s[i]),
        k == s.len() || !is_space(s[k]),
    ensures
        trim_start(s) == s.skip(k),
    decreases k,
{
    if k == 0 {
        assert(s.skip(0) == s);
    } else {
        let t = s.drop_first();
        assert forall|i: int| 0 <= i < k - 1 implies is_space(#[trigger] t[i]) by {
            assert(t[i] == s[i + 1]);
        }
        lemma_trim_start_skip(t, k - 1);
        assert(t.skip(k - 1) == s.skip(k));
    }
}

/// Trimming the end keeps what stands up to the last character that is no
/// white space.
pub proof fn lemma_trim_end_take(s: Seq<char>, k: int)
    requires
        0 <= k <= s.len(),
        forall|i: int| k <= i < s.len() ==> is_space(#[trigger] s[i]),
        k == 0 || !is_space(s[k - 1]),
    ensures
        trim_end(s) == s.take(k),
    decreases s.len() - k,
{
    if k == s.len() {
        assert(s.take(k) == s);
    } else {
        let t = s.drop_last();
        lemma_trim_end_take(t, k);
        assert(t.take(k) == s.take(k));
    }
}

/// A copy of the characters of `v` from `from` up to `to`.
pub(crate) fn slice_of(v: &Vec<char>, from: usize, to: usize) -> (r: Vec<char>)
    requires
        from <= to <= v.len(),
    ensures
        r@ == v@.subrange(from as int, to as int),
{
    let mut r: Vec<char> = Vec::new();
    let mut i: usize = from;
    while i < to
        invariant
            from <= i <= to <= v.len(),
            r@ == v@.subrange(from as int, i as int),
        decreases to - i,
    {
        r.push(v[i]);
        i += 1;
        assert(v@.subrange(from as int, i as int) == v@.subrange(from as int, i as int - 1).push(
            v@[i as int - 1],
        ));
    }
    r
}

pub(crate) fn trimmed(v: &Vec<char>) -> (r: Vec<char>)
    ensures
        r@ == trim(v@),
{
    let mut i: usize = 0;
    while i < v.len() && is_whitespace(v[i])
        invariant
            i <= v.len(),
            forall|k: int| 0 <= k < i ==> is_space(#[trigger] v@[k]),
        decreases v.len() - i,
    {
        i += 1;
    }
    let mut j: usize = v.len();
    while j > i && is_whitespace(v[j - 1])
        invariant
            i <= j <= v.len(),
            forall|k: int| j <= k < v.len() ==> is_space(#[trigger] v@[k]),
        decreases j,
    {
        j -= 1;
    }
    proof {
        lemma_trim_start_skip(v@, i as int);
        let t = v@.skip(i as int);
        assert forall|k: int| j - i <= k < t.len() implies is_space(#[trigger] t[k]) by {
            assert(t[k] == v@[k + i]);
        }
        lemma_trim_end_take(t, j - i);
        assert(t.take(j - i) == v@.subrange(i as int, j as int));
    }
    slice_of(v, i, j)
}

/// Whether `p` occurs in `s` at position `i`.
pub open spec fn occurs_at(s: Seq<char>, p: Seq<char>, i: int) -> bool {
    0 <= i && i + p.len() <= s.len() && s.subrange(i, i + p.len()) == p
}

/// Whether `s` begins with `p`.
pub open spec fn has_prefix(s: Seq<char>, p: Seq<char>) -> bool {
    occurs_at(s, p, 0)
}

/// Whether `s` ends with `p`.
pub open spec fn has_suffix(s: Seq<char>, p: Seq<char>) -> bool {
    occurs_at(s, p, s.len() - p.len())
}

/// The position of the first occurrence of `p` in `s` at or after `from`, or
/// -1 where there is none.
pub open spec fn find_from(s: Seq<char>, p: Seq<char>, from: int) -> int
    decreases s.len() + 1 - from,
{
    if from < 0 || from + p.len() > s.len() {
        -1
    } else if occurs_at(s, p, from) {
        from
    } else {
        find_from(s, p, from + 1)
    }
}

/// The position of the first occurrence of `p` in `s`, or -1.
pub open spec fn find(s: Seq<char>, p: Seq<char>) -> int {
    find_from(s, p, 0)
}

/// What is found is an occurrence with none before it; where nothing is
/// found there is none.
pub proof fn lemma_find_from(s: Seq<char>, p: Seq<char>, from: int)
    requires
        0 <= from,
    ensures
        find_from(s, p, from) == -1 ==> forall|i: int| from <= i ==> !occurs_at(s, p, i),
        find_from(s, p, from) != -1 ==> from <= find_from(s, p, from) && occurs_at(
            s,
            p,
            find_from(s, p, from),
        ) && forall|i: int| from <= i < find_from(s, p, from) ==> !occurs_at(s, p, i),
    decreases s.len() + 1 - from,
{
    if from + p.len() > s.len() {
    } else if occurs_at(s, p, from) {
    } else {
        lemma_find_from(s, p, from + 1);
    }
}

pub(crate) fn matches_at(s: &Vec<char>, p: &Vec<char>, i: usize) -> (b: bool)
    ensures
        b == occurs_at(s@, p@, i as int),
{
    if p.len() > s.len() || i > s.len() - p.len() {
        return false;
    }
    let mut k: usize = 0;
    while k < p.len()
        invariant
            k <= p.len(),
            i + p.len() <= s.len(),
            forall|j: int| 0 <= j < k ==> s@[i + j] == p@[j],
        decreases p.len() - k,
    {
        if s[i + k] != p[k] {
            proof {
                let sub = s@.subrange(i as int, i + p.len());
                assert(sub[k as int] == s@[i + k]);
            }
            return false;
        }
        k += 1;
    }
    assert(s@.subrange(i as int, i + p.len()) =~= p@);
    true
}

pub(crate) fn starts_with(s: &Vec<char>, p: &Vec<char>) -> (b: bool)
    ensures
        b == has_prefix(s@, p@),
{
    matches_at(s, p, 0)
}

pub(crate) fn ends_with(s: &Vec<char>, p: &Vec<char>) -> (b: bool)
    ensures
        b == has_suffix(s@, p@),
{
    if p.len() > s.len() {
        false
    } else {
        matches_at(s, p, s.len() - p.len())
    }
}

pub(crate) fn find_first(s: &Vec<char>, p: &Vec<char>) -> (r: Option<usize>)
    ensures
        match r {
            Some(i) => find(s@, p@) == i,
            None => find(s@, p@) == -1,
        },
{
    let mut i: usize = 0;
    while i <= s.len()
        invariant
            i <= s.len() + 1,
            find(s@, p@) == find_from(s@, p@, i as int),
        decreases s.len() + 1 - i,
    {
        if matches_at(s, p, i) {
            return Some(i);
        }
        if i == s.len() {
            assert(find_from(s@, p@, i + 1) == -1);
            return None;
        }
        i += 1;
    }
    None
}

/// The position of the first `c` in `s`, or -1 where `s` holds none.
pub open spec fn position(s: Seq<char>, c: char) -> int
    decreases s.len(),
{
    if s.len() == 0 {
        -1
    } else if s[0] == c {
        0
    } else {
        let r = position(s.drop_first(), c);
        if r < 0 {
            -1
        } else {
            r + 1
        }
    }
}

/// `position` is a place that holds `c`, with none before it; where it is
/// -1 no place holds `c`.
pub proof fn lemma_position(s: Seq<char>, c: char)
    ensures
        -1 <= position(s, c) < s.len(),
        position(s, c) >= 0 ==> s[position(s, c)] == c,
        forall|i: int| 0 <= i < s.len() && (i < position(s, c) || position(s, c) < 0) ==> s[i] != c,
    decreases s.len(),
{
    if s.len() > 0 && s[0] != c {
        let t = s.drop_first();
        lemma_position(t, c);
        assert forall|i: int| 0 <= i < s.len() && (i < position(s, c) || position(s, c) < 0)
            implies s[i] != c by {
            if i > 0 {
                assert(s[i] == t[i - 1]);
            }
        }
    }
}

/// `position` is the only place that holds `c` with none before it.
pub proof fn lemma_position_is(s: Seq<char>, c: char, k: int)
    requires
        0 <= k <= s.len(),
        forall|i: int| 0 <= i < k ==> s[i] != c,
        k == s.len() || s[k] == c,
    ensures
        position(s, c) == (if k == s.len() {
            -1
        } else {
            k
        }),
{
    lemma_position(s, c);
}

/// The first position at or after `from` where `v` holds `c`.
pub(crate) fn position_from(v: &Vec<char>, c: char, from: usize) -> (r: Option<usize>)
    requires
        from <= v.len(),
    ensures
        match r {
            Some(i) => from <= i < v.len() && position(v@.skip(from as int), c) == i - from,
            None => position(v@.skip(from as int), c) == -1,
        },
{
    let ghost t = v@.skip(from as int);
    let mut i: usize = from;
    while i < v.len()
        invariant
            from <= i <= v.len(),
            t == v@.skip(from as int),
            forall|k: int| 0 <= k < i - from ==> t[k] != c,
        decreases v.len() - i,
    {
        if v[i] == c {
            proof {
                lemma_position_is(t, c, i - from);
            }
            return Some(i);
        }
        i += 1;
    }
    proof {
        lemma_position_is(t, c, i - from);
    }
    None
}

/// `l` without one trailing carriage return.
pub open spec fn strip_cr(l: Seq<char>) -> Seq<char> {
    if l.len() > 0 && l.last() == '\r' {
        l.drop_last()
    } else {
        l
    }
}

/// The lines of `s`: it is cut after each line feed, and a line loses its
/// line feed and one carriage return before it. After the last line feed
/// nothing more follows unless characters are left.
pub open spec fn lines(s: Seq<char>) -> Seq<Seq<char>>
    decreases s.len(),
{
    if s.len() == 0 {
        Seq::empty()
    } else {
        let i = position(s, '\n');
        if i < 0 || i >= s.len() {
            seq![s]
        } else {
            seq![strip_cr(s.take(i))] + lines(s.skip(i + 1))
        }
    }
}

/// What a list of character vectors holds, each taken by its view.
pub open spec fn views(r: Seq<Vec<char>>) -> Seq<Seq<char>> {
    r.map_values(|l: Vec<char>| l@)
}

pub(crate) fn split_lines(v: &Vec<char>) -> (r: Vec<Vec<char>>)
    ensures
        views(r@) == lines(v@),
{
    let mut r: Vec<Vec<char>> = Vec::new();
    let mut start: usize = 0;
    assert(v@.skip(0) == v@);
    assert(views(r@) =~= Seq::<Seq<char>>::empty());
    while start < v.len()
        invariant
            start <= v.len(),
            lines(v@) == views(r@) + lines(v@.skip(start as int)),
        decreases v.len() - start,
    {
        let ghost rest = v@.skip(start as int);
        let ghost before = views(r@);
        match position_from(v, '\n', start) {
            None => {
                let line = slice_of(v, start, v.len());
                assert(line@ == rest);
                r.push(line);
                assert(views(r@) =~= before.push(rest));
                assert(lines(rest) == seq![rest]);
                start = v.len();
                assert(lines(v@.skip(start as int)) =~= Seq::<Seq<char>>::empty());
                assert(before + seq![rest] =~= before.push(rest) + Seq::<Seq<char>>::empty());
            },
            Some(i) => {
                let end: usize = if i > start && v[i - 1] == '\r' {
                    i - 1
                } else {
                    i
                };
                let line = slice_of(v, start, end);
                proof {
                    let raw = rest.take(i - start);
                    assert(raw == v@.subrange(start as int, i as int));
                    if i > start {
                        assert(raw.last() == v@[i - 1]);
                    }
                    assert(line@ == strip_cr(raw));
                    assert(rest.skip(i - start + 1) == v@.skip(i + 1));
                }
                r.push(line);
                assert(views(r@) =~= before.push(line@));
                start = i + 1;
                assert(before + (seq![line@] + lines(v@.skip(start as int))) =~= before.push(line@)
                    + lines(v@.skip(start as int)));
            },
        }
    }
    assert(lines(v@.skip(start as int)) =~= Seq::<Seq<char>>::empty());
    assert(views(r@) + Seq::<Seq<char>>::empty() =~= views(r@));
    r
}

/// The position of the last `c` in `s`, or -1 where `s` holds none.
pub open spec fn last_position(s: Seq<char>, c: char) -> int
    decreases s.len(),
{
    if s.len() == 0 {
        -1
    } else if s.last() == c {
        s.len() - 1
    } else {
        last_position(s.drop_last(), c)
    }
}

/// `last_position` is the place that holds `c` with none behind it.
pub proof fn lemma_last_position_is(s: Seq<char>, c: char, k: int)
    requires
        -1 <= k < s.len(),
        forall|i: int| k < i < s.len() ==> s[i] != c,
        k == -1 || s[k] == c,
    ensures
        last_position(s, c) == k,
    decreases s.len(),
{
    if s.len() > 0 && k < s.len() - 1 {
        lemma_last_position_is(s.drop_last(), c, k);
    }
}

/// The last position before `end` where `v` holds `c`.
pub(crate) fn last_position_before(v: &Vec<char>, c: char, end: usize) -> (r: Option<usize>)
    requires
        end <= v.len(),
    ensures
        match r {
            Some(i) => i < end && v@[i as int] == c && last_position(v@.take(end as int), c) == i,
            None => last_position(v@.take(end as int), c) == -1,
        },
{
    let ghost t = v@.take(end as int);
    let mut i: usize = end;
    while i > 0
        invariant
            i <= end <= v.len(),
            t == v@.take(end as int),
            forall|k: int| i <= k < end ==> t[k] != c,
        decreases i,
    {
        i -= 1;
        if v[i] == c {
            proof {
                lemma_last_position_is(t, c, i as int);
            }
            return Some(i);
        }
    }
    proof {
        lemma_last_position_is(t, c, -1);
    }
    None
}

/// Appends the characters of `more` to `out`.
pub(crate) fn push_all(out: &mut Vec<char>, more: &Vec<char>)
    ensures
        final(out)@ == old(out)@ + more@,
{
    let mut i: usize = 0;
    while i < more.len()
        invariant
            i <= more.len(),
            out@ == old(out)@ + more@.take(i as int),
        decreases more.len() - i,
    {
        out.push(more[i]);
        i += 1;
        assert(old(out)@ + more@.take(i as int) =~= (old(out)@ + more@.take(i - 1)).push(
            more@[i - 1],
        ));
    }
    assert(more@.take(more.len() as int) == more@);
}

/// Appends the characters of `more` to `out`.
pub(crate) fn push_str(out: &mut Vec<char>, more: &str)
    ensures
        final(out)@ == old(out)@ + more@,
{
    let m = chars_of(more);
    push_all(out, &m);
}

/// `s` with each occurrence of `pat` replaced by `to`, the occurrences taken
/// from the left and none overlapping another.
pub open spec fn replace_all(s: Seq<char>, pat: Seq<char>, to: Seq<char>) -> Seq<char>
    decreases s.len(),
{
    if pat.len() == 0 || s.len() < pat.len() {
        s
    } else if has_prefix(s, pat) {
        to + replace_all(s.skip(pat.len() as int), pat, to)
    } else {
        seq![s[0]] + replace_all(s.drop_first(), pat, to)
    }
}

pub(crate) fn replaced(s: &Vec<char>, pat: &Vec<char>, to: &Vec<char>) -> (r: Vec<char>)
    requires
        pat.len() > 0,
    ensures
        r@ == replace_all(s@, pat@, to@),
{
    let mut out: Vec<char> = Vec::new();
    let mut i: usize = 0;
    assert(s@.skip(0) == s@);
    assert(out@ + replace_all(s@, pat@, to@) =~= replace_all(s@, pat@, to@));
    while i < s.len()
        invariant
            i <= s.len(),
            pat.len() > 0,
            replace_all(s@, pat@, to@) == out@ + replace_all(s@.skip(i as int), pat@, to@),
        decreases s.len() - i,
    {
        let ghost rest = s@.skip(i as int);
        let ghost before = out@;
        if matches_at(s, pat, i) {
            assert(rest.subrange(0, pat.len() as int) == s@.subrange(i as int, i + pat.len()));
            assert(has_prefix(rest, pat@));
            push_all(&mut out, to);
            assert(rest.skip(pat.len() as int) == s@.skip(i + pat.len()));
            i += pat.len();
            assert(before + (to@ + replace_all(s@.skip(i as int), pat@, to@)) =~= out@
                + replace_all(s@.skip(i as int), pat@, to@));
        } else {
            assert(!has_prefix(rest, pat@)) by {
                if rest.len() >= pat.len() {
                    assert(rest.subrange(0, pat.len() as int) == s@.subrange(
                        i as int,
                        i + pat.len(),
                    ));
                }
            }
            out.push(s[i]);
            i += 1;
            proof {
                let tail = s@.skip(i as int);
                assert(rest.drop_first() == tail);
                assert(rest[0] == s@[i - 1]);
                assert(out@ =~= before + seq![rest[0]]);
                if rest.len() < pat.len() {
                    lemma_replace_short(rest, pat@, to@);
                }
                assert(replace_all(rest, pat@, to@) == seq![rest[0]] + replace_all(
                    tail,
                    pat@,
                    to@,
                ));
                assert(before + (seq![rest[0]] + replace_all(tail, pat@, to@)) =~= out@
                    + replace_all(tail, pat@, to@));
            }
        }
    }
    assert(s@.skip(s.len() as int).len() == 0);
    assert(out@ + replace_all(s@.skip(s.len() as int), pat@, to@) =~= out@);
    out
}

/// A text shorter than the pattern holds no occurrence, nor does what is
/// left of it after its first character.
pub proof fn lemma_replace_short(s: Seq<char>, pat: Seq<char>, to: Seq<char>)
    requires
        0 < s.len() < pat.len(),
    ensures
        replace_all(s, pat, to) == seq![s[0]] + replace_all(s.drop_first(), pat, to),
{
    assert(replace_all(s.drop_first(), pat, to) == s.drop_first());
    assert(seq![s[0]] + s.drop_first() =~= s);
}

/// The first occurrence is the one with none before it.
pub proof fn lemma_find_is(s: Seq<char>, p: Seq<char>, k: int)
    requires
        occurs_at(s, p, k),
        forall|i: int| 0 <= i < k ==> !occurs_at(s, p, i),
    ensures
        find(s, p) == k,
{
    lemma_find_from(s, p, 0);
}

/// Where nothing occurs, nothing is found.
pub proof fn lemma_find_none(s: Seq<char>, p: Seq<char>)
    requires
        forall|i: int| 0 <= i ==> !occurs_at(s, p, i),
    ensures
        find(s, p) == -1,
{
    lemma_find_from(s, p, 0);
}

/// A pattern without a line feed that does not occur in a line is found
/// behind that line where it is found in what follows, and not at all where
/// it is not.
pub proof fn lemma_find_after_line(line: Seq<char>, rest: Seq<char>, p: Seq<char>)
    requires
        p.len() > 0,
        forall|j: int| 0 <= j < p.len() ==> p[j] != '\n',
        find(line, p) == -1,
    ensures
        find(line + seq!['\n'] + rest, p) == (if find(rest, p) < 0 {
            -1
        } else {
            line.len() + 1 + find(rest, p)
        }),
{
    let whole = line + seq!['\n'] + rest;
    let n = line.len() as int;
    lemma_find_from(line, p, 0);
    lemma_find_from(rest, p, 0);
    assert forall|i: int| 0 <= i <= n implies !occurs_at(whole, p, i) by {
        if occurs_at(whole, p, i) {
            let w = whole.subrange(i, i + p.len());
            if i + p.len() <= n {
                assert(line.subrange(i, i + p.len()) =~= w);
                assert(occurs_at(line, p, i));
            } else {
                assert(w[n - i] == whole[n]);
                assert(p[n - i] == '\n');
            }
        }
    }
    assert forall|i: int| i > n implies occurs_at(whole, p, i) == occurs_at(rest, p, i - n - 1) by {
        if i + p.len() <= whole.len() {
            assert(whole.subrange(i, i + p.len()) =~= rest.subrange(
                i - n - 1,
                i - n - 1 + p.len(),
            ));
        }
    }
    if find(rest, p) < 0 {
        assert forall|i: int| 0 <= i implies !occurs_at(whole, p, i) by {
            if i > n {
                assert(!occurs_at(rest, p, i - n - 1));
            }
        }
        lemma_find_none(whole, p);
    } else {
        let k = find(rest, p);
        assert(occurs_at(whole, p, n + 1 + k));
        assert forall|i: int| 0 <= i < n + 1 + k implies !occurs_at(whole, p, i) by {
            if i > n {
                assert(!occurs_at(rest, p, i - n - 1));
            }
        }
        lemma_find_is(whole, p, n + 1 + k);
    }
}

/// A line without a line feed, followed by one, is the first of the lines.
pub proof fn lemma_lines_after_line(line: Seq<char>, rest: Seq<char>)
    requires
        forall|j: int| 0 <= j < line.len() ==> line[j] != '\n',
    ensures
        lines(line + seq!['\n'] + rest) == seq![strip_cr(line)] + lines(rest),
{
    let whole = line + seq!['\n'] + rest;
    let n = line.len() as int;
    assert forall|i: int| 0 <= i < n implies whole[i] != '\n' by {
        assert(whole[i] == line[i]);
    }
    assert(whole[n] == '\n');
    lemma_position_is(whole, '\n', n);
    assert(whole.take(n) =~= line);
    assert(whole.skip(n + 1) =~= rest);
}

/// Characters without a line feed among them are one line.
pub proof fn lemma_lines_of_one(line: Seq<char>)
    requires
        line.len() > 0,
        forall|j: int| 0 <= j < line.len() ==> line[j] != '\n',
    ensures
        lines(line) == seq![line],
{
    lemma_position_is(line, '\n', line.len() as int);
}

/// Trimming makes no text longer, and makes it shorter where there is white
/// space to trim.
pub proof fn lemma_trim_lengths(s: Seq<char>)
    ensures
        trim_start(s).len() <= s.len(),
        trim_end(s).len() <= s.len(),
        s.len() > 0 && is_space(s[0]) ==> trim_start(s).len() < s.len(),
        s.len() > 0 && is_space(s.last()) ==> trim_end(s).len() < s.len(),
    decreases s.len(),
{
    if s.len() > 0 {
        lemma_trim_lengths(s.drop_first());
        lemma_trim_lengths(s.drop_last());
    }
}

/// A text is its own trimmed form exactly where it neither begins nor ends
/// with white space.
pub proof fn lemma_trim_fixed(s: Seq<char>)
    ensures
        trim(s) == s <==> (s.len() == 0 || (!is_space(s[0]) && !is_space(s.last()))),
{
    lemma_trim_lengths(s);
    lemma_trim_lengths(trim_start(s));
}

/// The parts into which `s` falls where it is cut at each `c`; the `c`
/// themselves are in no part.
pub open spec fn split(s: Seq<char>, c: char) -> Seq<Seq<char>>
    decreases s.len(),
{
    let i = position(s, c);
    if i < 0 || i >= s.len() {
        seq![s]
    } else {
        seq![s.take(i)] + split(s.skip(i + 1), c)
    }
}

/// The last part of a text that holds `c` is what follows the last `c`,
/// and the parts before it are those of what stands before the last `c`.
/// A text that does not hold `c` is one part.
pub proof fn lemma_split_last(s: Seq<char>, c: char)
    ensures
        split(s, c).len() >= 1,
        last_position(s, c) < 0 ==> split(s, c) == seq![s],
        last_position(s, c) >= 0 ==> split(s, c) == split(s.take(last_position(s, c)), c).push(
            s.skip(last_position(s, c) + 1),
        ),
    decreases s.len(),
{
    let i = position(s, c);
    let j = last_position(s, c);
    lemma_position(s, c);
    lemma_last_position_facts(s, c);
    if j < 0 {
        assert(i < 0) by {
            if i >= 0 {
                assert(s[i] == c);
            }
        }
    } else {
        assert(0 <= i <= j) by {
            if i < 0 || i > j {
                assert(s[j] == c);
            }
        }
        let t = s.skip(i + 1);
        let front = s.take(j);
        lemma_split_last(t, c);
        if i == j {
            assert forall|k: int| 0 <= k < t.len() implies t[k] != c by {
                assert(t[k] == s[k + i + 1]);
            }
            lemma_last_position_is(t, c, -1);
            assert forall|k: int| 0 <= k < front.len() implies front[k] != c by {
                assert(front[k] == s[k]);
            }
            lemma_position_is(front, c, front.len() as int);
            assert(seq![s.take(i)] + seq![t] =~= seq![front].push(s.skip(j + 1)));
        } else {
            let tj = j - i - 1;
            assert forall|k: int| tj < k < t.len() implies t[k] != c by {
                assert(t[k] == s[k + i + 1]);
            }
            assert(t[tj] == s[j]);
            lemma_last_position_is(t, c, tj);
            assert forall|k: int| 0 <= k < i implies front[k] != c by {
                assert(front[k] == s[k]);
            }
            assert(front[i] == s[i]);
            lemma_position_is(front, c, i);
            assert(front.take(i) =~= s.take(i));
            assert(front.skip(i + 1) =~= t.take(tj));
            assert(t.skip(tj + 1) =~= s.skip(j + 1));
            assert(seq![s.take(i)] + split(t.take(tj), c).push(t.skip(tj + 1)) =~= (seq![
                s.take(i),
            ] + split(t.take(tj), c)).push(s.skip(j + 1)));
        }
    }
}

/// `last_position` is a place that holds `c`, with none behind it.
pub proof fn lemma_last_position_facts(s: Seq<char>, c: char)
    ensures
        -1 <= last_position(s, c) < s.len(),
        last_position(s, c) >= 0 ==> s[last_position(s, c)] == c,
        forall|i: int| last_position(s, c) < i < s.len() ==> s[i] != c,
    decreases s.len(),
{
    if s.len() > 0 && s.last() != c {
        let t = s.drop_last();
        lemma_last_position_facts(t, c);
        assert forall|i: int| last_position(s, c) < i < s.len() implies s[i] != c by {
            if i < s.len() - 1 {
                assert(s[i] == t[i]);
            }
        }
    }
}

} // verus!
