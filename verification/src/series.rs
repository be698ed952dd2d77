//! Time series of bounded length.
use vstd::prelude::*;

verus! {

/// The number of entries that a series holds at most.
pub const MAX_POINTS: usize = 10000;

/// A series after a new entry: where it would grow too long, it loses its oldest entry.
pub open spec fn pushed<T>(series: Seq<T>, entry: T) -> Seq<T> {
    if series.len() >= MAX_POINTS {
        series.push(entry).drop_first()
    } else {
        series.push(entry)
    }
}

/// How many entries a series loses to a new one.
pub open spec fn dropped<T>(series: Seq<T>) -> int {
    if series.len() >= MAX_POINTS {
        1
    } else {
        0
    }
}

/// After a new entry, the entries that are left stand in their order, and the new one stands last.
pub proof fn law_pushed_entries<T>(series: Seq<T>, entry: T)
    ensures
        pushed(series, entry).len() == series.len() + 1 - dropped(series),
        forall|i: int|
            0 <= i < pushed(series, entry).len() ==> #[trigger] pushed(series, entry)[i] == if i
                + dropped(series) < series.len() {
                series[i + dropped(series)]
            } else {
                entry
            },
{
}

/// A series without the older half of its entries.
pub open spec fn newer_half<T>(series: Seq<T>) -> Seq<T> {
    series.skip(series.len() as int / 2)
}

/// Adds an entry, and drops the oldest one where the series has grown too long.
pub fn push_bounded<T>(series: &mut Vec<T>, entry: T)
    ensures
        final(series)@ == pushed(old(series)@, entry),
{
    series.push(entry);
    if series.len() > MAX_POINTS {
        let ghost grown = series@;
        series.remove(0);
        assert(series@ =~= grown.drop_first());
    }
}

/// Drops the older half of the entries.
pub fn drain_half<T>(series: &mut Vec<T>)
    ensures
        final(series)@ == newer_half(old(series)@),
{
    let half: usize = series.len() / 2;
    let newer = series.split_off(half);
    assert(newer@ =~= newer_half(old(series)@));
    *series = newer;
}

/// The ticks of a series.
pub open spec fn ticks<T>(series: Seq<(u64, T)>) -> Seq<u64> {
    series.map_values(|entry: (u64, T)| entry.0)
}

/// A series after several new entries.
pub open spec fn pushed_all<T>(series: Seq<T>, entries: Seq<T>) -> Seq<T>
    decreases entries.len(),
{
    if entries.len() == 0 {
        series
    } else {
        pushed(pushed_all(series, entries.drop_last()), entries.last())
    }
}

/// The last entries of a sequence, as many as a series holds.
pub open spec fn newest<T>(entries: Seq<T>) -> Seq<T> {
    if entries.len() > MAX_POINTS {
        entries.skip(entries.len() - MAX_POINTS)
    } else {
        entries
    }
}

/// However many entries a series gets, it holds the newest ones.
pub proof fn law_series_holds_the_newest<T>(series: Seq<T>, entries: Seq<T>)
    requires
        series.len() <= MAX_POINTS,
    ensures
        pushed_all(series, entries) == newest(series + entries),
    decreases entries.len(),
{
    if entries.len() == 0 {
        assert(series + entries =~= series);
    } else {
        let before = series + entries.drop_last();
        law_series_holds_the_newest(series, entries.drop_last());
        assert(series + entries =~= before.push(entries.last()));
        assert(pushed_all(series, entries) =~= newest(series + entries));
    }
}

/// Dropping the older half keeps the newest entries, more than none of some.
pub proof fn law_half_is_the_newest<T>(series: Seq<T>)
    ensures
        newer_half(series).len() == series.len() - series.len() as int / 2,
        forall|i: int|
            0 <= i < newer_half(series).len() ==> #[trigger] newer_half(series)[i]
                == series[series.len() as int / 2 + i],
        series.len() > 0 ==> newer_half(series).len() > 0 && newer_half(series).last()
            == series.last(),
{
}

} // verus!
