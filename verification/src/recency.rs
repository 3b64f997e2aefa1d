use crate::clock::{Instant, Timestamp};
use crate::metadata::{metadata_of, parse_metadata};
use crate::retention::string_views;
use vstd::prelude::*;

verus! {

/// The seconds of a minute.
pub const SECONDS_PER_MINUTE: u64 = 60;

/// The entry for a record with the contents `content`: its command, exit
/// code and timestamp, where the contents carry metadata and the timestamp
/// is not strictly earlier than `minutes` minutes before `now`.
pub open spec fn entry_of(content: Seq<char>, now: Timestamp, minutes: int) -> Option<
    (Seq<char>, int, Timestamp),
> {
    match metadata_of(content) {
        Some(m) => if m.timestamp.spec_instant().spec_older_than(
            now.spec_instant(),
            minutes * 60,
        ) {
            None
        } else {
            Some((m.command, m.exit_code, m.timestamp))
        },
        None => None,
    }
}

/// The entries of the records `contents`, in their order.
pub open spec fn recent_entries(contents: Seq<Seq<char>>, now: Timestamp, minutes: int) -> Seq<
    (Seq<char>, int, Timestamp),
>
    decreases contents.len(),
{
    if contents.len() == 0 {
        Seq::empty()
    } else {
        let front = recent_entries(contents.drop_last(), now, minutes);
        match entry_of(contents.last(), now, minutes) {
            Some(e) => front.push(e),
            None => front,
        }
    }
}

/// `s` with `e` put in behind the last entry that is not later than `e`.
pub open spec fn insert_by_time(
    s: Seq<(Seq<char>, int, Timestamp)>,
    e: (Seq<char>, int, Timestamp),
) -> Seq<(Seq<char>, int, Timestamp)>
    decreases s.len(),
{
    if s.len() > 0 && e.2.spec_instant().spec_before(s.last().2.spec_instant()) {
        insert_by_time(s.drop_last(), e).push(s.last())
    } else {
        s.push(e)
    }
}

/// The entries `s` in the order of their timestamps, the earliest first;
/// entries of one time keep their order.
pub open spec fn sort_by_time(s: Seq<(Seq<char>, int, Timestamp)>) -> Seq<
    (Seq<char>, int, Timestamp),
>
    decreases s.len(),
{
    if s.len() == 0 {
        Seq::empty()
    } else {
        insert_by_time(sort_by_time(s.drop_last()), s.last())
    }
}

/// The commands that ran in the `minutes` minutes before `now`, as the
/// records `contents` tell, the earliest first.
pub open spec fn recent_commands(contents: Seq<Seq<char>>, now: Timestamp, minutes: int) -> Seq<
    (Seq<char>, int, Timestamp),
> {
    sort_by_time(recent_entries(contents, now, minutes))
}

/// An entry as plain values.
pub open spec fn entry_view(e: (String, i32, Timestamp)) -> (Seq<char>, int, Timestamp) {
    (e.0@, e.1 as int, e.2)
}

/// What a list of entries holds, as plain values.
pub open spec fn entry_views(v: Seq<(String, i32, Timestamp)>) -> Seq<
    (Seq<char>, int, Timestamp),
> {
    v.map_values(|e: (String, i32, Timestamp)| entry_view(e))
}

/// Putting `e` in at `pos` is `insert_by_time` where every entry from `pos`
/// on is later than `e` and the one before `pos` is not.
pub proof fn lemma_insert_at(
    s: Seq<(Seq<char>, int, Timestamp)>,
    e: (Seq<char>, int, Timestamp),
    pos: int,
)
    requires
        0 <= pos <= s.len(),
        forall|k: int|
            pos <= k < s.len() ==> e.2.spec_instant().spec_before((#[trigger] s[k]).2.spec_instant()),
        pos == 0 || !e.2.spec_instant().spec_before(s[pos - 1].2.spec_instant()),
    ensures
        insert_by_time(s, e) == s.insert(pos, e),
    decreases s.len() - pos,
{
    if pos == s.len() {
        assert(s.insert(pos, e) =~= s.push(e));
    } else {
        let front = s.drop_last();
        assert(e.2.spec_instant().spec_before(s[s.len() - 1].2.spec_instant()));
        assert forall|k: int| pos <= k < front.len() implies e.2.spec_instant().spec_before(
            (#[trigger] front[k]).2.spec_instant(),
        ) by {
            assert(front[k] == s[k]);
        }
        lemma_insert_at(front, e, pos);
        assert(front.insert(pos, e).push(s.last()) =~= s.insert(pos, e));
    }
}

/// The commands that ran in the `minutes` minutes before `now`, as the
/// contents of the record files tell, the earliest first. Contents that
/// carry no metadata are passed over.
pub fn get_recent_commands(contents: &Vec<String>, now: &Timestamp, minutes: u32) -> (r: Vec<
    (String, i32, Timestamp),
>)
    requires
        now.wf(),
    ensures
        entry_views(r@) == recent_commands(string_views(contents@), *now, minutes as int),
{
    let limit = now.instant();
    let age: u64 = minutes as u64 * SECONDS_PER_MINUTE;
    let mut out: Vec<(String, i32, Timestamp)> = Vec::new();
    let mut keys: Vec<Instant> = Vec::new();
    let mut i: usize = 0;
    assert(string_views(contents@).take(0) =~= Seq::<Seq<char>>::empty());
    assert(entry_views(out@) =~= Seq::<(Seq<char>, int, Timestamp)>::empty());
    while i < contents.len()
        invariant
            i <= contents.len(),
            now.wf(),
            limit == now.spec_instant(),
            age == minutes * 60,
            keys@.len() == out@.len(),
            forall|k: int| 0 <= k < out@.len() ==> #[trigger] keys@[k] == out@[k].2.spec_instant(),
            entry_views(out@) == recent_commands(
                string_views(contents@).take(i as int),
                *now,
                minutes as int,
            ),
        decreases contents.len() - i,
    {
        let ghost prev = recent_entries(
            string_views(contents@).take(i as int),
            *now,
            minutes as int,
        );
        let ghost found = entry_of(contents@[i as int]@, *now, minutes as int);
        proof {
            let front = string_views(contents@).take(i + 1);
            assert(front.drop_last() == string_views(contents@).take(i as int));
            assert(front.last() == contents@[i as int]@);
            assert(recent_entries(front, *now, minutes as int) == match found {
                Some(e) => prev.push(e),
                None => prev,
            });
            if let Some(e) = found {
                assert(prev.push(e).drop_last() == prev);
                assert(prev.push(e).last() == e);
            }
        }
        match parse_metadata(contents[i].as_str()) {
            Some(m) => {
                let key = m.timestamp.instant();
                if !key.older_than(&limit, age) {
                    let mut pos: usize = out.len();
                    while pos > 0 && key.before(&keys[pos - 1])
                        invariant
                            pos <= out@.len() == keys@.len(),
                            forall|k: int|
                                pos <= k < keys@.len() ==> key.spec_before(#[trigger] keys@[k]),
                        decreases pos,
                    {
                        pos -= 1;
                    }
                    let entry = (m.command, m.exit_code, m.timestamp);
                    let ghost before = entry_views(out@);
                    let ghost e = entry_view(entry);
                    assert(found == Some(e));
                    proof {
                        assert forall|k: int| pos <= k < before.len() implies e.2.spec_instant().spec_before(
                            (#[trigger] before[k]).2.spec_instant(),
                        ) by {
                            assert(keys@[k] == out@[k].2.spec_instant());
                        }
                        if pos > 0 {
                            assert(keys@[pos - 1] == out@[pos - 1].2.spec_instant());
                        }
                        lemma_insert_at(before, e, pos as int);
                    }
                    out.insert(pos, entry);
                    keys.insert(pos, key);
                    assert(entry_views(out@) =~= before.insert(pos as int, e));
                }
            },
            None => {},
        }
        i += 1;
    }
    assert(string_views(contents@).take(contents.len() as int) == string_views(contents@));
    out
}

/// Whether no entry of `s` is earlier than one before it.
pub open spec fn is_sorted_by_time(s: Seq<(Seq<char>, int, Timestamp)>) -> bool {
    forall|i: int, j: int|
        0 <= i < j < s.len() ==> !(#[trigger] s[j]).2.spec_instant().spec_before(
            (#[trigger] s[i]).2.spec_instant(),
        )
}

/// Where `insert_by_time` puts `e` into `s`.
pub open spec fn insert_position(
    s: Seq<(Seq<char>, int, Timestamp)>,
    e: (Seq<char>, int, Timestamp),
) -> int
    decreases s.len(),
{
    if s.len() > 0 && e.2.spec_instant().spec_before(s.last().2.spec_instant()) {
        insert_position(s.drop_last(), e)
    } else {
        s.len() as int
    }
}

/// `insert_by_time` puts an entry in at `insert_position`: behind every
/// entry that is not later, before every entry that is.
pub proof fn lemma_insert_position(
    s: Seq<(Seq<char>, int, Timestamp)>,
    e: (Seq<char>, int, Timestamp),
)
    ensures
        0 <= insert_position(s, e) <= s.len(),
        forall|k: int|
            insert_position(s, e) <= k < s.len() ==> e.2.spec_instant().spec_before(
                (#[trigger] s[k]).2.spec_instant(),
            ),
        insert_position(s, e) == 0 || !e.2.spec_instant().spec_before(
            s[insert_position(s, e) - 1].2.spec_instant(),
        ),
        insert_by_time(s, e) == s.insert(insert_position(s, e), e),
    decreases s.len(),
{
    if s.len() > 0 && e.2.spec_instant().spec_before(s.last().2.spec_instant()) {
        let front = s.drop_last();
        lemma_insert_position(front, e);
        let pos = insert_position(s, e);
        assert forall|k: int| pos <= k < s.len() implies e.2.spec_instant().spec_before(
            (#[trigger] s[k]).2.spec_instant(),
        ) by {
            if k < front.len() {
                assert(front[k] == s[k]);
            }
        }
        if pos > 0 {
            assert(front[pos - 1] == s[pos - 1]);
        }
    }
    lemma_insert_at(s, e, insert_position(s, e));
}

/// Putting an entry into sorted entries leaves them sorted, and adds that
/// entry and no other.
pub proof fn lemma_insert_sorted(
    s: Seq<(Seq<char>, int, Timestamp)>,
    e: (Seq<char>, int, Timestamp),
)
    requires
        is_sorted_by_time(s),
    ensures
        is_sorted_by_time(insert_by_time(s, e)),
        insert_by_time(s, e).len() == s.len() + 1,
        forall|x: (Seq<char>, int, Timestamp)|
            insert_by_time(s, e).contains(x) <==> (s.contains(x) || x == e),
{
    lemma_insert_position(s, e);
    let pos = insert_position(s, e);
    let r = insert_by_time(s, e);
    assert(r == s.insert(pos, e));
    assert forall|i: int, j: int| 0 <= i < j < r.len() implies !(#[trigger] r[j]).2.spec_instant().spec_before(
        (#[trigger] r[i]).2.spec_instant(),
    ) by {
        if j == pos {
            assert(r[i] == s[i]);
            if i < pos - 1 {
                assert(!s[pos - 1].2.spec_instant().spec_before(s[i].2.spec_instant()));
            }
        } else if i == pos {
            assert(r[j] == s[j - 1]);
        } else {
            let a = if i < pos {
                i
            } else {
                i - 1
            };
            let b = if j < pos {
                j
            } else {
                j - 1
            };
            assert(r[i] == s[a] && r[j] == s[b]);
        }
    }
    assert forall|x: (Seq<char>, int, Timestamp)| r.contains(x) <==> (s.contains(x) || x
        == e) by {
        if r.contains(x) {
            let k = choose|k: int| 0 <= k < r.len() && r[k] == x;
            if k < pos {
                assert(s[k] == x);
            } else if k > pos {
                assert(s[k - 1] == x);
            }
        }
        if s.contains(x) {
            let k = choose|k: int| 0 <= k < s.len() && s[k] == x;
            if k < pos {
                assert(r[k] == x);
            } else {
                assert(r[k + 1] == x);
            }
        }
        if x == e {
            assert(r[pos] == x);
        }
    }
}

/// Sorted entries are in order, and they are the entries that were sorted.
pub proof fn lemma_sort_by_time(s: Seq<(Seq<char>, int, Timestamp)>)
    ensures
        is_sorted_by_time(sort_by_time(s)),
        sort_by_time(s).len() == s.len(),
        forall|x: (Seq<char>, int, Timestamp)| sort_by_time(s).contains(x) <==> s.contains(x),
    decreases s.len(),
{
    if s.len() > 0 {
        let front = s.drop_last();
        lemma_sort_by_time(front);
        lemma_insert_sorted(sort_by_time(front), s.last());
        assert forall|x: (Seq<char>, int, Timestamp)| sort_by_time(s).contains(x) <==> s.contains(
            x,
        ) by {
            if s.contains(x) {
                let k = choose|k: int| 0 <= k < s.len() && s[k] == x;
                if k < front.len() {
                    assert(front[k] == x);
                }
            }
            if front.contains(x) {
                let k = choose|k: int| 0 <= k < front.len() && front[k] == x;
                assert(s[k] == x);
            }
            if x == s.last() {
                assert(s[s.len() - 1] == x);
            }
        }
    }
}

/// Whether `e` is the entry of one of the records `contents`.
pub open spec fn is_entry_of_some(
    contents: Seq<Seq<char>>,
    now: Timestamp,
    minutes: int,
    e: (Seq<char>, int, Timestamp),
) -> bool {
    exists|i: int| 0 <= i < contents.len() && #[trigger] entry_of(contents[i], now, minutes) == Some(e)
}

/// The entries are exactly those of the records that have one.
pub proof fn lemma_recent_entries(contents: Seq<Seq<char>>, now: Timestamp, minutes: int)
    ensures
        forall|e: (Seq<char>, int, Timestamp)|
            recent_entries(contents, now, minutes).contains(e) <==> is_entry_of_some(
                contents,
                now,
                minutes,
                e,
            ),
    decreases contents.len(),
{
    let all = recent_entries(contents, now, minutes);
    if contents.len() == 0 {
        assert forall|e: (Seq<char>, int, Timestamp)| all.contains(e) <==> is_entry_of_some(
            contents,
            now,
            minutes,
            e,
        ) by {}
    } else {
        let front = contents.drop_last();
        let rest = recent_entries(front, now, minutes);
        let last = contents.len() - 1;
        lemma_recent_entries(front, now, minutes);
        assert forall|e: (Seq<char>, int, Timestamp)| all.contains(e) <==> is_entry_of_some(
            contents,
            now,
            minutes,
            e,
        ) by {
            if all.contains(e) {
                let k = choose|k: int| 0 <= k < all.len() && all[k] == e;
                if k < rest.len() {
                    assert(rest[k] == e);
                    assert(is_entry_of_some(front, now, minutes, e));
                    let i = choose|i: int|
                        0 <= i < front.len() && #[trigger] entry_of(front[i], now, minutes)
                            == Some(e);
                    assert(contents[i] == front[i]);
                    assert(entry_of(contents[i], now, minutes) == Some(e));
                } else {
                    assert(entry_of(contents[last], now, minutes) == Some(e));
                }
            }
            if is_entry_of_some(contents, now, minutes, e) {
                let i = choose|i: int|
                    0 <= i < contents.len() && #[trigger] entry_of(contents[i], now, minutes)
                        == Some(e);
                if i < last {
                    assert(front[i] == contents[i]);
                    assert(entry_of(front[i], now, minutes) == Some(e));
                    assert(is_entry_of_some(front, now, minutes, e));
                    let k = choose|k: int| 0 <= k < rest.len() && rest[k] == e;
                    assert(all[k] == e);
                } else {
                    assert(all[all.len() - 1] == e);
                }
            }
        }
    }
}

/// The answer to a query is in the order of the timestamps, the earliest
/// first. It holds the command, exit code and timestamp of each record that
/// carries metadata with a timestamp not earlier than `minutes` minutes
/// before `now`, and nothing else: no entry with an earlier timestamp, and
/// none for contents that carry no metadata.
pub proof fn law_recent_commands(contents: Seq<Seq<char>>, now: Timestamp, minutes: int)
    ensures
        is_sorted_by_time(recent_commands(contents, now, minutes)),
        forall|e: (Seq<char>, int, Timestamp)|
            recent_commands(contents, now, minutes).contains(e) <==> is_entry_of_some(
                contents,
                now,
                minutes,
                e,
            ),
        forall|e: (Seq<char>, int, Timestamp)|
            #[trigger] recent_commands(contents, now, minutes).contains(e)
                ==> !e.2.spec_instant().spec_older_than(now.spec_instant(), minutes * 60),
        recent_commands(contents, now, minutes).len() <= contents.len(),
{
    lemma_recent_entries(contents, now, minutes);
    lemma_sort_by_time(recent_entries(contents, now, minutes));
    lemma_recent_count(contents, now, minutes);
    assert forall|e: (Seq<char>, int, Timestamp)| #[trigger] recent_commands(
        contents,
        now,
        minutes,
    ).contains(e) implies !e.2.spec_instant().spec_older_than(
        now.spec_instant(),
        minutes * 60,
    ) by {
        assert(is_entry_of_some(contents, now, minutes, e));
    }
}

/// There are no more entries than records.
pub proof fn lemma_recent_count(contents: Seq<Seq<char>>, now: Timestamp, minutes: int)
    ensures
        recent_entries(contents, now, minutes).len() <= contents.len(),
    decreases contents.len(),
{
    if contents.len() > 0 {
        lemma_recent_count(contents.drop_last(), now, minutes);
    }
}

} // verus!
