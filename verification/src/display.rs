//! What the screen shows and the options ask for, told on the state and on the texts themselves.
use crate::app::{AppView, Status};
use crate::binary64::{lemma_named_patterns, one, Binary64, ONE_BITS};
use crate::charts::{
    at_least_one, count_at_least_one, is_nearest_kind, is_ordered, is_span,
    law_nearest_kind_is_closest, tick_distance, Frame,
};
use crate::numbers::gap;
use crate::options::{telemetry_url, Cli, Plot, PlotFlags, DEFAULT_URL};
use crate::screen::{color_of_kind, command_of, Color, Command, Key};
use crate::series::ticks;
use crate::telemetry::OptKind;
use crate::text::{digit, digits};
use vstd::arithmetic::power2::pow2;
use vstd::prelude::*;

verus! {

/// The number that a text of decimal digits stands for.
pub open spec fn reads_as(text: Seq<char>) -> int
    decreases text.len(),
{
    if text.len() == 0 {
        0
    } else {
        10 * reads_as(text.drop_last()) + (text.last() as int - 48)
    }
}

proof fn lemma_digit(number: nat)
    requires
        number < 10,
    ensures
        digit(number).len() == 1,
        digit(number)[0] as int == 48 + number,
{
    reveal_strlit("0");
    reveal_strlit("1");
    reveal_strlit("2");
    reveal_strlit("3");
    reveal_strlit("4");
    reveal_strlit("5");
    reveal_strlit("6");
    reveal_strlit("7");
    reveal_strlit("8");
    reveal_strlit("9");
}

/// The digits of a number stand for that number, and do not start with a zero but for zero itself.
pub proof fn law_digits_stand_for_their_number(number: nat)
    ensures
        reads_as(digits(number)) == number,
        digits(number).len() > 0,
        forall|i: int|
            0 <= i < digits(number).len() ==> 48 <= (#[trigger] digits(number)[i]) as int <= 57,
        number > 0 ==> digits(number)[0] != '0',
        number == 0 ==> digits(number).len() == 1,
    decreases number,
{
    if number < 10 {
        lemma_digit(number);
        assert(digits(number).drop_last() =~= Seq::empty());
        reveal_with_fuel(reads_as, 2);
    } else {
        lemma_digit(number % 10);
        law_digits_stand_for_their_number(number / 10);
        let (front, back) = (digits(number / 10), digit(number % 10));
        assert(digits(number) == front + back);
        assert((front + back).drop_last() =~= front);
        assert((front + back).last() == back[0]);
        assert forall|i: int| 0 <= i < digits(number).len() implies 48 <= (
        #[trigger] digits(number)[i]) as int <= 57 by {
            if i < front.len() {
                assert(digits(number)[i] == front[i]);
            } else {
                assert(digits(number)[i] == back[0]);
            }
        }
        assert(digits(number)[0] == front[0]);
    }
}

/// Before there has been any contact the status line says that the process is waited for, and after
/// contact was lost that it is offline; what was told of saving follows.
pub proof fn law_status_line_without_contact(state: AppView, latency: Seq<char>, now: u64)
    ensures
        state.status == Status::WaitingForProcess && !state.is_remote ==> state.status_line(
            latency,
            now,
        ) == "[LOCAL] Waiting for Qdrant process..."@ + state.save_info(now),
        state.status == Status::WaitingForProcess && state.is_remote ==> state.status_line(
            latency,
            now,
        ) == "[REMOTE] Waiting for Qdrant process..."@ + state.save_info(now),
        state.status == Status::Offline && !state.is_remote ==> state.status_line(latency, now)
            == "[LOCAL] Qdrant process OFFLINE — waiting for reconnect..."@ + state.save_info(now),
        state.status == Status::Offline && state.is_remote ==> state.status_line(latency, now)
            == "[REMOTE] Qdrant process OFFLINE — waiting for reconnect..."@ + state.save_info(
            now,
        ),
{
    reveal_strlit("[");
    reveal_strlit("LOCAL");
    reveal_strlit("REMOTE");
    reveal_strlit("] Waiting for Qdrant process...");
    reveal_strlit("] Qdrant process OFFLINE — waiting for reconnect...");
    reveal_strlit("[LOCAL] Waiting for Qdrant process...");
    reveal_strlit("[REMOTE] Waiting for Qdrant process...");
    reveal_strlit("[LOCAL] Qdrant process OFFLINE — waiting for reconnect...");
    reveal_strlit("[REMOTE] Qdrant process OFFLINE — waiting for reconnect...");
    let line = state.status_line(latency, now);
    let info = state.save_info(now);
    if state.status == Status::WaitingForProcess {
        if state.is_remote {
            assert(line =~= "[REMOTE] Waiting for Qdrant process..."@ + info);
        } else {
            assert(line =~= "[LOCAL] Waiting for Qdrant process..."@ + info);
        }
    } else if state.status == Status::Offline {
        if state.is_remote {
            assert(line =~= "[REMOTE] Qdrant process OFFLINE — waiting for reconnect..."@ + info);
        } else {
            assert(line =~= "[LOCAL] Qdrant process OFFLINE — waiting for reconnect..."@ + info);
        }
    }
}

/// While the process is online the status line shows the whole part of the newest queue length, the
/// search latency where there is one, and, once a queue length above zero has been seen, the number
/// of samples; what was told of saving follows.
pub proof fn law_status_line_while_online(
    state: AppView,
    latency: Seq<char>,
    now: u64,
    queue: Seq<char>,
    search: Seq<char>,
    samples: Seq<char>,
)
    requires
        state.status == Status::Online,
        state.queue_lengths.len() > 0 ==> queue == digits(
            state.queue_lengths[state.queue_lengths.len() - 1].1.truncated() as nat,
        ),
        state.queue_lengths.len() == 0 ==> queue == "0"@,
        state.search_latencies.len() > 0 ==> search == latency,
        state.search_latencies.len() == 0 ==> search == "n/a"@,
        state.recording ==> samples == " | samples: "@ + digits(state.queue_lengths.len()),
        !state.recording ==> samples == " | waiting for non-zero"@,
    ensures
        state.status_line(latency, now) == (if state.is_remote {
            "[REMOTE] Qdrant ONLINE | queue: "@
        } else {
            "[LOCAL] Qdrant ONLINE | queue: "@
        }) + queue + " | search: "@ + search + samples + state.save_info(now),
{
    reveal_strlit("[");
    reveal_strlit("LOCAL");
    reveal_strlit("REMOTE");
    reveal_strlit("] Qdrant ONLINE | queue: ");
    reveal_strlit("[REMOTE] Qdrant ONLINE | queue: ");
    reveal_strlit("[LOCAL] Qdrant ONLINE | queue: ");
    assert("["@ + "LOCAL"@ + "] Qdrant ONLINE | queue: "@ =~= "[LOCAL] Qdrant ONLINE | queue: "@);
    assert("["@ + "REMOTE"@ + "] Qdrant ONLINE | queue: "@
        =~= "[REMOTE] Qdrant ONLINE | queue: "@);
    assert(digits(state.last_queue()) == queue);
    let head = if state.is_remote {
        "[REMOTE] Qdrant ONLINE | queue: "@
    } else {
        "[LOCAL] Qdrant ONLINE | queue: "@
    };
    assert("["@ + state.mode() + "] Qdrant ONLINE | queue: "@ == head);
    assert(state.status_line(latency, now) =~= head + queue + " | search: "@ + search + samples
        + state.save_info(now));
}

/// The newest search latency is the one that the status line shows.
pub proof fn law_newest_search_latency_is_shown(state: AppView)
    ensures
        state.search_latencies.len() == 0 ==> state.last_search_latency() is None,
        state.search_latencies.len() > 0 ==> state.last_search_latency() == Some(
            state.search_latencies[state.search_latencies.len() - 1].1,
        ),
{
}

/// Of the keys that are pressed, `q` and escape quit, `r` resets, `s` saves, `d` drops the older
/// half, and every other one is ignored, as is every key that is not pressed.
pub proof fn law_keys_ask_for_commands(key: Key, pressed: bool)
    ensures
        command_of(key, pressed) == Command::Quit <==> pressed && (key == Key::Esc || key
            == Key::Char('q')),
        command_of(key, pressed) == Command::Reset <==> pressed && key == Key::Char('r'),
        command_of(key, pressed) == Command::SaveJson <==> pressed && key == Key::Char('s'),
        command_of(key, pressed) == Command::DropFirstHalf <==> pressed && key == Key::Char('d'),
{
}

/// Idle is green, a merge red, an index yellow, and both together magenta.
pub proof fn law_kinds_have_their_colors()
    ensures
        color_of_kind(OptKind::Idle) == Color::Green,
        color_of_kind(OptKind::MergeOnly) == Color::Red,
        color_of_kind(OptKind::IndexOnly) == Color::Yellow,
        color_of_kind(OptKind::Both) == Color::Magenta,
{
}

/// The upper end of a chart is that of its axis, and one where the axis ends below one.
pub proof fn law_charts_reach_at_least_one(max: Binary64, count: u64)
    ensures
        !max.is_nan() && max.units() >= pow2(1074) ==> at_least_one(max) == max,
        max.is_nan() || max.units() < pow2(1074) ==> at_least_one(max).units() == pow2(1074),
        count >= 1 ==> count_at_least_one(count) == count,
        count < 1 ==> count_at_least_one(count) == 1,
{
    lemma_named_patterns();
    assert((Binary64 { bits: ONE_BITS }).exponent() == 1023);
}

/// A span of ticks starts with the least and ends with the largest of them, and there is none only
/// where there are no ticks.
pub proof fn law_span_is_from_the_least_to_the_largest(
    span: Option<(u64, u64)>,
    all: Seq<u64>,
    i: int,
)
    requires
        is_span(span, all),
        0 <= i < all.len(),
    ensures
        match span {
            Some((low, high)) => {
                &&& low <= all[i] <= high
                &&& exists|j: int| 0 <= j < all.len() && all[j] == low
                &&& exists|j: int| 0 <= j < all.len() && all[j] == high
            },
            None => false,
        },
{
}

/// The chart of queue lengths goes from the tick of the first entry to that of the last one, and up
/// to the end of its axis, but at least to one; there is none only where there is no entry.
pub proof fn law_queue_chart_shows_the_series(state: AppView, frame: Option<Frame<Binary64>>)
    requires
        state.is_queue_frame(frame),
        !state.max_y_queue.is_nan(),
    ensures
        match frame {
            Some(frame) => {
                &&& state.queue_lengths.len() > 0
                &&& frame.x_min == state.queue_lengths[0].0
                &&& frame.x_max == state.queue_lengths[state.queue_lengths.len() - 1].0
                &&& frame.y_max.units() == if state.max_y_queue.units() >= pow2(1074) {
                    state.max_y_queue.units()
                } else {
                    pow2(1074) as int
                }
            },
            None => state.queue_lengths.len() == 0,
        },
{
    law_charts_reach_at_least_one(state.max_y_queue, 0);
}

/// The chart of segments goes from the tick of the first entry to that of the last one, and up to
/// the end of its axis, but at least to one; there is none only where there is no entry.
pub proof fn law_segments_chart_shows_the_series(state: AppView, frame: Option<Frame<u64>>)
    requires
        state.is_segments_frame(frame),
    ensures
        match frame {
            Some(frame) => {
                &&& state.total_segments.len() > 0
                &&& frame.x_min == state.total_segments[0].0
                &&& frame.x_max == state.total_segments[state.total_segments.len() - 1].0
                &&& frame.y_max >= 1 && frame.y_max >= state.max_y_segments
                &&& frame.y_max == 1 || frame.y_max == state.max_y_segments
            },
            None => state.total_segments.len() == 0,
        },
{
}

/// Whether a range of ticks holds all entries of two series, and starts and ends with some entry.
pub open spec fn spans_both<T>(low: u64, high: u64, a: Seq<(u64, T)>, b: Seq<(u64, T)>) -> bool {
    &&& forall|i: int| 0 <= i < a.len() ==> low <= (#[trigger] a[i]).0 <= high
    &&& forall|i: int| 0 <= i < b.len() ==> low <= (#[trigger] b[i]).0 <= high
    &&& (exists|i: int| 0 <= i < a.len() && (#[trigger] a[i]).0 == low) || (exists|i: int|
        0 <= i < b.len() && (#[trigger] b[i]).0 == low)
    &&& (exists|i: int| 0 <= i < a.len() && (#[trigger] a[i]).0 == high) || (exists|i: int|
        0 <= i < b.len() && (#[trigger] b[i]).0 == high)
}

proof fn lemma_span_of_both<T>(low: u64, high: u64, a: Seq<(u64, T)>, b: Seq<(u64, T)>)
    requires
        is_span(Some((low, high)), ticks(a) + ticks(b)),
    ensures
        spans_both(low, high, a, b),
{
    let all = ticks(a) + ticks(b);
    assert forall|i: int| 0 <= i < a.len() implies low <= (#[trigger] a[i]).0 <= high by {
        assert(all[i] == a[i].0);
    }
    assert forall|i: int| 0 <= i < b.len() implies low <= (#[trigger] b[i]).0 <= high by {
        assert(all[a.len() + i] == b[i].0);
    }
    assert forall|tick: u64| all.contains(tick) implies (exists|i: int|
        0 <= i < a.len() && (#[trigger] a[i]).0 == tick) || (exists|i: int|
        0 <= i < b.len() && (#[trigger] b[i]).0 == tick) by {
        let k = choose|k: int| 0 <= k < all.len() && all[k] == tick;
        if k < a.len() {
            assert(a[k].0 == tick);
        } else {
            assert(b[k - a.len()].0 == tick);
        }
    }
}

/// The chart of search latencies holds the ticks of both series, and reaches up to the end of the
/// longer one of their axes, but at least to one; there is none only where both are empty.
pub proof fn law_search_chart_shows_both_series(state: AppView, frame: Option<Frame<Binary64>>)
    requires
        state.is_search_frame(frame),
        !state.max_y_search.is_nan(),
        !state.max_y_filtered_search.is_nan(),
    ensures
        match frame {
            Some(frame) => {
                let (a, b) = (state.max_y_search.units(), state.max_y_filtered_search.units());
                let end = frame.y_max.units();
                &&& spans_both(
                    frame.x_min,
                    frame.x_max,
                    state.search_latencies,
                    state.filtered_search_latencies,
                )
                &&& end >= a && end >= b && end >= pow2(1074)
                &&& end == a || end == b || end == pow2(1074)
            },
            None => state.search_latencies.len() == 0 && state.filtered_search_latencies.len() == 0,
        },
{
    law_charts_reach_at_least_one(state.max_y_search.larger(state.max_y_filtered_search), 0);
    match frame {
        Some(frame) => {
            lemma_span_of_both(
                frame.x_min,
                frame.x_max,
                state.search_latencies,
                state.filtered_search_latencies,
            );
        },
        None => {
            let all = ticks(state.search_latencies) + ticks(state.filtered_search_latencies);
            assert(all.len() == 0);
        },
    }
}

/// The chart of points holds the ticks of both series, and reaches up to the end of its axis, but at
/// least to one; there is none only where both are empty.
pub proof fn law_points_chart_shows_both_series(state: AppView, frame: Option<Frame<u64>>)
    requires
        state.is_points_frame(frame),
    ensures
        match frame {
            Some(frame) => {
                &&& spans_both(
                    frame.x_min,
                    frame.x_max,
                    state.plain_points,
                    state.indexed_points,
                )
                &&& frame.y_max >= 1 && frame.y_max >= state.max_y_points
                &&& frame.y_max == 1 || frame.y_max == state.max_y_points
            },
            None => state.plain_points.len() == 0 && state.indexed_points.len() == 0,
        },
{
    match frame {
        Some(frame) => {
            lemma_span_of_both(
                frame.x_min,
                frame.x_max,
                state.plain_points,
                state.indexed_points,
            );
        },
        None => {
            let all = ticks(state.plain_points) + ticks(state.indexed_points);
            assert(all.len() == 0);
        },
    }
}

/// Statuses are ordered exactly where no tick is followed by a smaller one.
pub proof fn law_ordered_ticks_do_not_decrease(statuses: Seq<(u64, OptKind)>)
    ensures
        is_ordered(statuses) <==> forall|i: int, j: int|
            0 <= i < j < statuses.len() ==> (#[trigger] statuses[i]).0 <= (
            #[trigger] statuses[j]).0,
{
}

/// The kind that is shown for a point in time is that of a status that no other one is nearer than,
/// and of two that are as near the earlier one.
pub proof fn law_no_status_is_nearer(
    kind: OptKind,
    statuses: Seq<(u64, OptKind)>,
    t: Binary64,
)
    requires
        statuses.len() > 0,
        is_ordered(statuses),
        is_nearest_kind(kind, statuses, t),
    ensures
        exists|i: int|
            0 <= i < statuses.len() && kind == (#[trigger] statuses[i]).1 && forall|j: int|
                0 <= j < statuses.len() ==> {
                    let mine = gap(t.units(), statuses[i].0 * pow2(1074));
                    let other = gap(t.units(), (#[trigger] statuses[j]).0 * pow2(1074));
                    mine < other || (mine == other && statuses[i].0 <= statuses[j].0)
                },
{
    law_nearest_kind_is_closest(kind, statuses, t);
    let i = choose|i: int|
        0 <= i < statuses.len() && kind == (#[trigger] statuses[i]).1 && (forall|j: int|
            0 <= j < statuses.len() ==> {
                ||| tick_distance(t, statuses[i].0) < tick_distance(t, (#[trigger] statuses[j]).0)
                ||| tick_distance(t, statuses[i].0) == tick_distance(t, statuses[j].0)
                    && statuses[i].0 <= statuses[j].0
            });
    assert forall|j: int| 0 <= j < statuses.len() implies ({
        let mine = gap(t.units(), statuses[i].0 * pow2(1074));
        let other = gap(t.units(), (#[trigger] statuses[j]).0 * pow2(1074));
        mine < other || (mine == other && statuses[i].0 <= statuses[j].0)
    }) by {
        assert(tick_distance(t, statuses[i].0) == gap(t.units(), statuses[i].0 * one()));
        assert(tick_distance(t, statuses[j].0) == gap(t.units(), statuses[j].0 * one()));
    }
}

/// Plots that are asked for by name are shown, and no others; where none is, all are but that of
/// the points.
pub proof fn law_named_plots_are_shown(cli: Cli)
    ensures
        cli.queue || cli.search || cli.points || cli.segments ==> {
            &&& cli.wanted().queue == cli.queue
            &&& cli.wanted().search == cli.search
            &&& cli.wanted().points == cli.points
            &&& cli.wanted().segments == cli.segments
        },
        !cli.queue && !cli.search && !cli.points && !cli.segments ==> {
            &&& cli.wanted().queue
            &&& cli.wanted().search
            &&& !cli.wanted().points
            &&& cli.wanted().segments
        },
{
}

/// The place of a plot on the screen, from top to bottom.
pub open spec fn rank(plot: Plot) -> int {
    match plot {
        Plot::Queue => 0,
        Plot::Search => 1,
        Plot::Points => 2,
        Plot::Segments => 3,
    }
}

/// The plots that are shown stand in the order queue, search, points, segments, and there are as
/// many as there are flags set.
pub proof fn law_plots_stand_in_order(flags: PlotFlags)
    ensures
        forall|i: int, j: int|
            0 <= i < j < flags.shown().len() ==> rank(#[trigger] flags.shown()[i]) < rank(
                #[trigger] flags.shown()[j],
            ),
        flags.shown().len() == (if flags.queue {
            1int
        } else {
            0
        }) + (if flags.search {
            1int
        } else {
            0
        }) + (if flags.points {
            1int
        } else {
            0
        }) + (if flags.segments {
            1int
        } else {
            0
        }),
{
}

/// The address of the telemetry is that of the process without the slashes at its end, followed by
/// the path of the telemetry in full detail.
pub proof fn law_address_is_extended(base: Seq<char>, slashes: nat)
    requires
        base.len() > 0 ==> base.last() != '/',
    ensures
        telemetry_url(base + Seq::new(slashes, |i: int| '/')) == base
            + "/telemetry?details_level=100"@,
        DEFAULT_URL@ == "http://localhost:6333/telemetry?details_level=100"@,
    decreases slashes,
{
    let whole = base + Seq::new(slashes, |i: int| '/');
    if slashes == 0 {
        assert(whole =~= base);
    } else {
        let shorter = base + Seq::new((slashes - 1) as nat, |i: int| '/');
        law_address_is_extended(base, (slashes - 1) as nat);
        assert(whole.drop_last() =~= shorter);
        assert(whole.last() == '/');
    }
}

} // verus!
