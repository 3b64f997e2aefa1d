use crate::clock::{resolve_local, Timestamp};
use crate::filename::{decode_filename, filename_time};
use vstd::prelude::*;

verus! {

/// The seconds of a day.
pub const SECONDS_PER_DAY: u64 = 86_400;

/// Whether a file whose name carries the time `file` is to go: its time is
/// strictly earlier than `days` days before `now`. A file whose name carries
/// no time stays.
pub open spec fn is_expired(file: Option<Timestamp>, now: Timestamp, days: int) -> bool {
    match file {
        Some(t) => t.spec_instant().spec_older_than(now.spec_instant(), days * 86_400),
        None => false,
    }
}

/// Whether `time` may be the time of the file named `name`: it is the local
/// time that the name carries, at some offset, or there is none. A name that
/// carries no time has none.
pub open spec fn is_time_of(name: Seq<char>, time: Option<Timestamp>) -> bool {
    match time {
        Some(t) => t.wf() && filename_time(name) == Some(t.local),
        None => true,
    }
}

/// The names among `names` whose files are to go, in their order, where
/// `times[i]` is the time of the file `names[i]`.
pub open spec fn expired_names(
    names: Seq<Seq<char>>,
    times: Seq<Option<Timestamp>>,
    now: Timestamp,
    days: int,
) -> Seq<Seq<char>>
    decreases names.len(),
{
    if names.len() == 0 || times.len() != names.len() {
        Seq::empty()
    } else if is_expired(times.last(), now, days) {
        expired_names(names.drop_last(), times.drop_last(), now, days).push(names.last())
    } else {
        expired_names(names.drop_last(), times.drop_last(), now, days)
    }
}

/// What a list of strings holds, each taken by its view.
pub open spec fn string_views(v: Seq<String>) -> Seq<Seq<char>> {
    v.map_values(|s: String| s@)
}

/// Whether the file whose name carries `file` is to go.
pub fn sweep_decision(file: Option<&Timestamp>, now: &Timestamp, days: u32) -> (b: bool)
    requires
        now.wf(),
        file matches Some(t) ==> t.wf(),
    ensures
        b == is_expired(
            match file {
                Some(t) => Some(*t),
                None => None,
            },
            *now,
            days as int,
        ),
{
    match file {
        Some(t) => {
            let age: u64 = days as u64 * SECONDS_PER_DAY;
            t.instant().older_than(&now.instant(), age)
        },
        None => false,
    }
}

/// The time of the file named `name`: the local time that the name carries,
/// at the offset that the machine's time zone has at it. There is none where
/// the name carries no time, or the zone does not have that local time
/// exactly once.
pub fn file_time(name: &str) -> (r: Option<Timestamp>)
    ensures
        is_time_of(name@, r),
{
    match decode_filename(name) {
        Some(l) => resolve_local(&l),
        None => None,
    }
}

/// The names among `names` whose files are older than `days` days at `now`
/// and are to be deleted, in the order of `names`. The age of a file is read
/// from its name alone; a file whose name carries no time is never among
/// them.
pub fn cleanup_old_files(names: &Vec<String>, now: &Timestamp, days: u32) -> (r: Vec<String>)
    requires
        now.wf(),
    ensures
        exists|times: Seq<Option<Timestamp>>|
            {
                &&& times.len() == names.len()
                &&& forall|i: int|
                    0 <= i < names.len() ==> is_time_of(names@[i]@, #[trigger] times[i])
                &&& string_views(r@) == expired_names(
                    string_views(names@),
                    times,
                    *now,
                    days as int,
                )
            },
{
    let mut r: Vec<String> = Vec::new();
    let ghost mut times: Seq<Option<Timestamp>> = Seq::empty();
    let mut i: usize = 0;
    assert(string_views(names@).take(0) =~= Seq::<Seq<char>>::empty());
    assert(string_views(r@) =~= Seq::<Seq<char>>::empty());
    while i < names.len()
        invariant
            i <= names.len(),
            now.wf(),
            times.len() == i,
            forall|k: int| 0 <= k < i ==> is_time_of(names@[k]@, #[trigger] times[k]),
            string_views(r@) == expired_names(
                string_views(names@).take(i as int),
                times,
                *now,
                days as int,
            ),
        decreases names.len() - i,
    {
        let time = file_time(names[i].as_str());
        let ghost before = string_views(r@);
        let ghost old_times = times;
        let go = sweep_decision(time.as_ref(), now, days);
        proof {
            times = times.push(time);
            let front = string_views(names@).take(i + 1);
            assert(front.drop_last() == string_views(names@).take(i as int));
            assert(front.last() == names@[i as int]@);
            assert(times.drop_last() == old_times);
            assert(times.last() == time);
        }
        if go {
            r.push(names[i].clone());
            assert(string_views(r@) =~= before.push(names@[i as int]@));
        }
        i += 1;
    }
    assert(string_views(names@).take(names.len() as int) == string_views(names@));
    r
}

/// Whether `name` is the name of one of the files `names` whose time is
/// strictly earlier than `days` days before `now`.
pub open spec fn is_expired_file(
    names: Seq<Seq<char>>,
    times: Seq<Option<Timestamp>>,
    now: Timestamp,
    days: int,
    name: Seq<char>,
) -> bool {
    exists|i: int|
        0 <= i < names.len() && names[i] == name && is_expired(#[trigger] times[i], now, days)
            && filename_time(names[i]) is Some
}

/// A sweep takes exactly the files whose time is strictly earlier than
/// `days` days before `now`: each such file is among the names to delete,
/// and each name to delete is that of such a file. A file whose name carries
/// no time is never taken.
pub proof fn law_sweep_takes_the_expired(
    names: Seq<Seq<char>>,
    times: Seq<Option<Timestamp>>,
    now: Timestamp,
    days: int,
)
    requires
        times.len() == names.len(),
        forall|i: int| 0 <= i < names.len() ==> is_time_of(names[i], #[trigger] times[i]),
    ensures
        forall|i: int|
            0 <= i < names.len() && is_expired(#[trigger] times[i], now, days) ==> expired_names(
                names,
                times,
                now,
                days,
            ).contains(names[i]),
        forall|k: int|
            0 <= k < expired_names(names, times, now, days).len() ==> is_expired_file(
                names,
                times,
                now,
                days,
                #[trigger] expired_names(names, times, now, days)[k],
            ),
        expired_names(names, times, now, days).len() <= names.len(),
    decreases names.len(),
{
    let all = expired_names(names, times, now, days);
    if names.len() > 0 {
        let front = names.drop_last();
        let front_times = times.drop_last();
        let rest = expired_names(front, front_times, now, days);
        assert forall|i: int| 0 <= i < front.len() implies is_time_of(
            front[i],
            #[trigger] front_times[i],
        ) by {
            assert(front_times[i] == times[i]);
        }
        law_sweep_takes_the_expired(front, front_times, now, days);
        let last = names.len() - 1;
        assert forall|i: int| 0 <= i < names.len() && is_expired(
            #[trigger] times[i],
            now,
            days,
        ) implies all.contains(names[i]) by {
            if i < last {
                assert(front_times[i] == times[i]);
                assert(rest.contains(front[i]));
                let k = choose|k: int| 0 <= k < rest.len() && rest[k] == front[i];
                assert(all[k] == names[i]);
            } else {
                assert(all[all.len() - 1] == names[i]);
            }
        }
        assert forall|k: int| 0 <= k < all.len() implies is_expired_file(
            names,
            times,
            now,
            days,
            #[trigger] all[k],
        ) by {
            if k < rest.len() {
                assert(all[k] == rest[k]);
                assert(is_expired_file(front, front_times, now, days, rest[k]));
                let i = choose|i: int|
                    0 <= i < front.len() && front[i] == rest[k] && is_expired(
                        #[trigger] front_times[i],
                        now,
                        days,
                    ) && filename_time(front[i]) is Some;
                assert(names[i] == all[k] && times[i] == front_times[i]);
            } else {
                assert(is_time_of(names[last], times[last]));
                assert(names[last] == all[k] && is_expired(times[last], now, days));
            }
        }
    }
}

} // verus!
