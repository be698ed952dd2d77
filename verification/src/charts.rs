//! The titles, lines and axes of the charts, and the bar that shows which optimizations ran when.
use crate::app::{App, AppView};
use crate::binary64::{lemma_multiples, one, Binary64, Side, ONE_BITS};
use crate::options::Plot;
use crate::screen::Color;
use crate::series::ticks;
use crate::telemetry::OptKind;
use vstd::prelude::*;

verus! {

/// The ranges of a chart: the ticks from left to right, and the values from zero upwards.
#[derive(Debug, PartialEq, Eq, Structural)]
pub struct Frame<Y> {
    pub x_min: u64,
    pub x_max: u64,
    pub y_max: Y,
}

/// Whether a span goes from the least to the largest of some ticks.
pub open spec fn is_span(span: Option<(u64, u64)>, all: Seq<u64>) -> bool {
    match span {
        Some((low, high)) => {
            &&& all.contains(low)
            &&& all.contains(high)
            &&& forall|i: int| 0 <= i < all.len() ==> low <= #[trigger] all[i] <= high
        },
        None => all.len() == 0,
    }
}

/// A span after one more tick.
fn widened(span: Option<(u64, u64)>, tick: u64, Ghost(all): Ghost<Seq<u64>>) -> (wider: Option<
    (u64, u64),
>)
    requires
        is_span(span, all),
    ensures
        is_span(wider, all.push(tick)),
{
    let ghost more = all.push(tick);
    assert(more[all.len() as int] == tick);
    assert forall|x: u64| all.contains(x) implies more.contains(x) by {
        let i = choose|i: int| 0 <= i < all.len() && all[i] == x;
        assert(more[i] == x);
    }
    match span {
        Some((low, high)) => Some(
            (
                if tick < low {
                    tick
                } else {
                    low
                },
                if tick > high {
                    tick
                } else {
                    high
                },
            ),
        ),
        None => Some((tick, tick)),
    }
}

/// The least and the largest tick of two series; none where both are empty.
pub fn tick_span<T>(a: &Vec<(u64, T)>, b: &Vec<(u64, T)>) -> (span: Option<(u64, u64)>)
    ensures
        is_span(span, ticks(a@) + ticks(b@)),
{
    let mut span: Option<(u64, u64)> = None;
    let mut i: usize = 0;
    while i < a.len()
        invariant
            i <= a@.len(),
            is_span(span, ticks(a@).take(i as int)),
        decreases a@.len() - i,
    {
        span = widened(span, a[i].0, Ghost(ticks(a@).take(i as int)));
        assert(ticks(a@).take(i as int).push(a@[i as int].0) =~= ticks(a@).take(i + 1));
        i += 1;
    }
    let mut j: usize = 0;
    assert(ticks(a@).take(i as int) =~= ticks(a@) + ticks(b@).take(0));
    while j < b.len()
        invariant
            j <= b@.len(),
            is_span(span, ticks(a@) + ticks(b@).take(j as int)),
        decreases b@.len() - j,
    {
        let ghost all = ticks(a@) + ticks(b@).take(j as int);
        span = widened(span, b[j].0, Ghost(all));
        assert(all.push(b@[j as int].0) =~= ticks(a@) + ticks(b@).take(j + 1));
        j += 1;
    }
    assert(ticks(b@).take(j as int) =~= ticks(b@));
    span
}

/// The upper end of an axis, which is at least one.
pub open spec fn at_least_one(max: Binary64) -> Binary64 {
    max.larger(Binary64 { bits: ONE_BITS })
}

/// The upper end of an axis of counts, which is at least one.
pub open spec fn count_at_least_one(max: u64) -> u64 {
    if max > 1 {
        max
    } else {
        1
    }
}

impl AppView {
    /// Whether a frame is that of the chart of queue lengths.
    pub open spec fn is_queue_frame(self, frame: Option<Frame<Binary64>>) -> bool {
        match frame {
            Some(frame) => {
                &&& self.queue_lengths.len() > 0
                &&& frame.x_min == self.queue_lengths.first().0
                &&& frame.x_max == self.queue_lengths.last().0
                &&& frame.y_max == at_least_one(self.max_y_queue)
            },
            None => self.queue_lengths.len() == 0,
        }
    }

    /// Whether a frame is that of the chart of search latencies.
    pub open spec fn is_search_frame(self, frame: Option<Frame<Binary64>>) -> bool {
        let all = ticks(self.search_latencies) + ticks(self.filtered_search_latencies);
        match frame {
            Some(frame) => {
                &&& is_span(Some((frame.x_min, frame.x_max)), all)
                &&& frame.y_max == at_least_one(
                    self.max_y_search.larger(self.max_y_filtered_search),
                )
            },
            None => is_span(None, all),
        }
    }

    /// Whether a frame is that of the chart of points.
    pub open spec fn is_points_frame(self, frame: Option<Frame<u64>>) -> bool {
        let all = ticks(self.plain_points) + ticks(self.indexed_points);
        match frame {
            Some(frame) => {
                &&& is_span(Some((frame.x_min, frame.x_max)), all)
                &&& frame.y_max == count_at_least_one(self.max_y_points)
            },
            None => is_span(None, all),
        }
    }

    /// Whether a frame is that of the chart of segments.
    pub open spec fn is_segments_frame(self, frame: Option<Frame<u64>>) -> bool {
        match frame {
            Some(frame) => {
                &&& self.total_segments.len() > 0
                &&& frame.x_min == self.total_segments.first().0
                &&& frame.x_max == self.total_segments.last().0
                &&& frame.y_max == count_at_least_one(self.max_y_segments)
            },
            None => self.total_segments.len() == 0,
        }
    }
}

impl App {
    /// The ranges of the chart of queue lengths; none where there is nothing to show.
    pub fn queue_frame(&self) -> (frame: Option<Frame<Binary64>>)
        ensures
            frame == if self@.queue_lengths.len() == 0 {
                None
            } else {
                Some(
                    Frame {
                        x_min: self@.queue_lengths.first().0,
                        x_max: self@.queue_lengths.last().0,
                        y_max: at_least_one(self@.max_y_queue),
                    },
                )
            },
            self@.is_queue_frame(frame),
    {
        let count: usize = self.queue_lengths.len();
        if count == 0 {
            return None;
        }
        Some(
            Frame {
                x_min: self.queue_lengths[0].0,
                x_max: self.queue_lengths[count - 1].0,
                y_max: self.max_y_queue.max(Binary64 { bits: ONE_BITS }),
            },
        )
    }

    /// The ranges of the chart of search latencies; none where there is nothing to show.
    pub fn search_frame(&self) -> (frame: Option<Frame<Binary64>>)
        ensures
            is_span(
                match frame {
                    Some(frame) => Some((frame.x_min, frame.x_max)),
                    None => None,
                },
                ticks(self@.search_latencies) + ticks(self@.filtered_search_latencies),
            ),
            frame is Some ==> frame->0.y_max == at_least_one(
                self@.max_y_search.larger(self@.max_y_filtered_search),
            ),
            self@.is_search_frame(frame),
    {
        match tick_span(&self.search_latencies, &self.filtered_search_latencies) {
            Some((x_min, x_max)) => Some(
                Frame {
                    x_min,
                    x_max,
                    y_max: self.max_y_search.max(self.max_y_filtered_search).max(
                        Binary64 { bits: ONE_BITS },
                    ),
                },
            ),
            None => None,
        }
    }

    /// The ranges of the chart of points; none where there is nothing to show.
    pub fn points_frame(&self) -> (frame: Option<Frame<u64>>)
        ensures
            is_span(
                match frame {
                    Some(frame) => Some((frame.x_min, frame.x_max)),
                    None => None,
                },
                ticks(self@.plain_points) + ticks(self@.indexed_points),
            ),
            frame is Some ==> frame->0.y_max == count_at_least_one(self@.max_y_points),
            self@.is_points_frame(frame),
    {
        match tick_span(&self.plain_points, &self.indexed_points) {
            Some((x_min, x_max)) => Some(
                Frame {
                    x_min,
                    x_max,
                    y_max: if self.max_y_points > 1 {
                        self.max_y_points
                    } else {
                        1
                    },
                },
            ),
            None => None,
        }
    }

    /// The ranges of the chart of segments; none where there is nothing to show.
    pub fn segments_frame(&self) -> (frame: Option<Frame<u64>>)
        ensures
            frame == if self@.total_segments.len() == 0 {
                None
            } else {
                Some(
                    Frame {
                        x_min: self@.total_segments.first().0,
                        x_max: self@.total_segments.last().0,
                        y_max: count_at_least_one(self@.max_y_segments),
                    },
                )
            },
            self@.is_segments_frame(frame),
    {
        let count: usize = self.total_segments.len();
        if count == 0 {
            return None;
        }
        Some(
            Frame {
                x_min: self.total_segments[0].0,
                x_max: self.total_segments[count - 1].0,
                y_max: if self.max_y_segments > 1 {
                    self.max_y_segments
                } else {
                    1
                },
            },
        )
    }
}

impl Plot {
    /// The title of the chart of a plot.
    pub open spec fn titled(self) -> Seq<char> {
        match self {
            Plot::Queue => "Update Queue Length (q: quit | r: reset | s: save json)"@,
            Plot::Search => "Search Avg Latency (us)"@,
            Plot::Points => "Segment Points (plain vs indexed)"@,
            Plot::Segments => "Segments & Pending Optimizations"@,
        }
    }

    /// The title of the chart of a plot.
    pub fn title(&self) -> (title: &'static str)
        ensures
            title@ == self.titled(),
    {
        match self {
            Plot::Queue => "Update Queue Length (q: quit | r: reset | s: save json)",
            Plot::Search => "Search Avg Latency (us)",
            Plot::Points => "Segment Points (plain vs indexed)",
            Plot::Segments => "Segments & Pending Optimizations",
        }
    }

    /// What the values in the chart of a plot are.
    pub open spec fn measured_in(self) -> Seq<char> {
        match self {
            Plot::Queue => "Length"@,
            Plot::Search => "us"@,
            Plot::Points => "Points"@,
            Plot::Segments => "Segments"@,
        }
    }

    /// The title of the axis of values in the chart of a plot.
    pub fn y_title(&self) -> (title: &'static str)
        ensures
            title@ == self.measured_in(),
    {
        match self {
            Plot::Queue => "Length",
            Plot::Search => "us",
            Plot::Points => "Points",
            Plot::Segments => "Segments",
        }
    }
}

/// Whether a line of a chart shows a series under a name and in a color.
pub open spec fn shows<Y>(
    line: (&'static str, Color, &Vec<(u64, Y)>),
    name: Seq<char>,
    color: Color,
    series: Seq<(u64, Y)>,
) -> bool {
    &&& line.0@ == name
    &&& line.1 == color
    &&& line.2@ == series
}

impl App {
    /// The line in the chart of queue lengths.
    pub fn queue_lines(&self) -> (lines: Vec<(&'static str, Color, &Vec<(u64, Binary64)>)>)
        ensures
            lines@.len() == 1,
            shows(lines@[0], "queue length"@, Color::Cyan, self@.queue_lengths),
    {
        let mut lines: Vec<(&'static str, Color, &Vec<(u64, Binary64)>)> = Vec::new();
        lines.push(("queue length", Color::Cyan, &self.queue_lengths));
        lines
    }

    /// The lines in the chart of search latencies, in the order in which they are drawn.
    pub fn search_lines(&self) -> (lines: Vec<(&'static str, Color, &Vec<(u64, Binary64)>)>)
        ensures
            lines@.len() == 2,
            shows(lines@[0], "QueryBatch"@, Color::Magenta, self@.search_latencies),
            shows(lines@[1], "filtered_plain"@, Color::Blue, self@.filtered_search_latencies),
    {
        let mut lines: Vec<(&'static str, Color, &Vec<(u64, Binary64)>)> = Vec::new();
        lines.push(("QueryBatch", Color::Magenta, &self.search_latencies));
        lines.push(("filtered_plain", Color::Blue, &self.filtered_search_latencies));
        lines
    }

    /// The lines in the chart of points, in the order in which they are drawn.
    pub fn point_lines(&self) -> (lines: Vec<(&'static str, Color, &Vec<(u64, u64)>)>)
        ensures
            lines@.len() == 2,
            shows(lines@[0], "plain"@, Color::Yellow, self@.plain_points),
            shows(lines@[1], "indexed"@, Color::Green, self@.indexed_points),
    {
        let mut lines: Vec<(&'static str, Color, &Vec<(u64, u64)>)> = Vec::new();
        lines.push(("plain", Color::Yellow, &self.plain_points));
        lines.push(("indexed", Color::Green, &self.indexed_points));
        lines
    }

    /// The lines in the chart of segments, in the order in which they are drawn.
    pub fn segment_lines(&self) -> (lines: Vec<(&'static str, Color, &Vec<(u64, u64)>)>)
        ensures
            lines@.len() == 4,
            shows(lines@[0], "total"@, Color::White, self@.total_segments),
            shows(lines@[1], "plain"@, Color::Yellow, self@.plain_segments),
            shows(lines@[2], "non-plain"@, Color::Green, self@.nonplain_segments),
            shows(lines@[3], "pending-opt"@, Color::Red, self@.pending_optimizations),
    {
        let mut lines: Vec<(&'static str, Color, &Vec<(u64, u64)>)> = Vec::new();
        lines.push(("total", Color::White, &self.total_segments));
        lines.push(("plain", Color::Yellow, &self.plain_segments));
        lines.push(("non-plain", Color::Green, &self.nonplain_segments));
        lines.push(("pending-opt", Color::Red, &self.pending_optimizations));
        lines
    }
}

/// Whether the ticks of some statuses do not decrease.
pub open spec fn is_ordered<T>(series: Seq<(u64, T)>) -> bool {
    forall|i: int, j: int|
        0 <= i <= j < series.len() ==> (#[trigger] series[i]).0 <= (#[trigger] series[j]).0
}

/// Whether the first `split` statuses lie before a point in time, and the others after it.
pub open spec fn splits(statuses: Seq<(u64, OptKind)>, t: Binary64, split: int) -> bool {
    &&& 0 <= split <= statuses.len()
    &&& forall|i: int|
        0 <= i < split ==> t.side((#[trigger] statuses[i]).0 as int) == Side::After
    &&& forall|i: int|
        split <= i < statuses.len() ==> t.side((#[trigger] statuses[i]).0 as int) == Side::Before
}

/// The position of the status nearest to a point in time that lies behind the first `split`
/// statuses.
pub open spec fn nearer(statuses: Seq<(u64, OptKind)>, t: Binary64, split: int) -> int {
    if split == 0 {
        0
    } else if split == statuses.len() {
        statuses.len() - 1
    } else if 2 * t.units() <= (statuses[split - 1].0 + statuses[split].0) * one() {
        split - 1
    } else {
        split
    }
}

/// Whether a kind is that of the status nearest to a point in time: the status at that very
/// time, or else the nearer one of those around it.
pub open spec fn is_nearest_kind(
    kind: OptKind,
    statuses: Seq<(u64, OptKind)>,
    t: Binary64,
) -> bool {
    ||| exists|i: int|
        0 <= i < statuses.len() && t.side((#[trigger] statuses[i]).0 as int) == Side::At && kind
            == statuses[i].1
    ||| exists|split: int| #[trigger]
        splits(statuses, t, split) && kind == statuses[nearer(statuses, t, split)].1
}

/// The sides on which a point in time lies as seen from two ticks.
proof fn lemma_sides(t: Binary64, early: u64, late: u64)
    requires
        early <= late,
    ensures
        t.side(early as int) == Side::Before ==> t.side(late as int) == Side::Before,
        t.side(late as int) == Side::After ==> t.side(early as int) == Side::After,
{
    assert(early * one() <= late * one()) by (nonlinear_arith)
        requires
            early <= late,
    ;
}

/// The kind of the status nearest to a point in time.
pub fn find_nearest_opt_status(statuses: &Vec<(u64, OptKind)>, t: Binary64) -> (kind: OptKind)
    requires
        statuses@.len() > 0,
        !t.is_nan(),
    ensures
        exists|i: int| 0 <= i < statuses@.len() && kind == (#[trigger] statuses@[i]).1,
        is_ordered(statuses@) ==> is_nearest_kind(kind, statuses@, t),
{
    let count: usize = statuses.len();
    let mut low: usize = 0;
    let mut high: usize = count;
    while low < high
        invariant
            count == statuses@.len(),
            low <= high <= count,
            !t.is_nan(),
            is_ordered(statuses@) ==> forall|i: int|
                0 <= i < low ==> t.side((#[trigger] statuses@[i]).0 as int) == Side::After,
            is_ordered(statuses@) ==> forall|i: int|
                high <= i < count ==> t.side((#[trigger] statuses@[i]).0 as int) == Side::Before,
        decreases high - low,
    {
        let middle: usize = low + (high - low) / 2;
        let here = statuses[middle];
        match t.side_of(here.0) {
            Side::At => {
                assert(statuses@[middle as int] == here);
                return here.1;
            },
            Side::After => {
                proof {
                    if is_ordered(statuses@) {
                        assert forall|i: int| 0 <= i < middle + 1 implies t.side(
                            (#[trigger] statuses@[i]).0 as int,
                        ) == Side::After by {
                            lemma_sides(t, statuses@[i].0, statuses@[middle as int].0);
                        }
                    }
                }
                low = middle + 1;
            },
            Side::Before => {
                proof {
                    if is_ordered(statuses@) {
                        assert forall|i: int| middle <= i < count implies t.side(
                            (#[trigger] statuses@[i]).0 as int,
                        ) == Side::Before by {
                            lemma_sides(t, statuses@[middle as int].0, statuses@[i].0);
                        }
                    }
                }
                high = middle;
            },
        }
    }
    assert(is_ordered(statuses@) ==> splits(statuses@, t, low as int));
    if low == 0 {
        statuses[0].1
    } else if low == count {
        statuses[count - 1].1
    } else {
        let previous = statuses[low - 1];
        let next = statuses[low];
        if t.at_most_half(previous.0 as u128 + next.0 as u128) {
            previous.1
        } else {
            next.1
        }
    }
}

/// How far a point in time is from a tick.
pub open spec fn tick_distance(t: Binary64, tick: u64) -> int {
    t.distance(tick * one())
}

/// The nearest kind is that of a status that no other one is nearer than; where another one is
/// as near, the earlier one counts.
pub proof fn law_nearest_kind_is_closest(
    kind: OptKind,
    statuses: Seq<(u64, OptKind)>,
    t: Binary64,
)
    requires
        statuses.len() > 0,
        is_ordered(statuses),
        is_nearest_kind(kind, statuses, t),
    ensures
        exists|i: int|
            0 <= i < statuses.len() && kind == (#[trigger] statuses[i]).1 && (forall|j: int|
                0 <= j < statuses.len() ==> {
                    ||| tick_distance(t, statuses[i].0) < tick_distance(
                        t,
                        (#[trigger] statuses[j]).0,
                    )
                    ||| tick_distance(t, statuses[i].0) == tick_distance(t, statuses[j].0)
                        && statuses[i].0 <= statuses[j].0
                }),
{
    let unit = one() as int;
    vstd::arithmetic::power2::lemma_pow2_pos(1074);
    if exists|i: int|
        0 <= i < statuses.len() && t.side((#[trigger] statuses[i]).0 as int) == Side::At && kind
            == statuses[i].1 {
        let i = choose|i: int|
            0 <= i < statuses.len() && t.side((#[trigger] statuses[i]).0 as int) == Side::At
                && kind == statuses[i].1;
        assert forall|j: int| 0 <= j < statuses.len() implies tick_distance(t, statuses[i].0)
            < tick_distance(t, (#[trigger] statuses[j]).0) || (tick_distance(t, statuses[i].0)
            == tick_distance(t, statuses[j].0) && statuses[i].0 <= statuses[j].0) by {
            lemma_multiples(statuses[i].0 as int, statuses[j].0 as int, unit);
        }
    } else {
        let split = choose|split: int| #[trigger]
            splits(statuses, t, split) && kind == statuses[nearer(statuses, t, split)].1;
        let i = nearer(statuses, t, split);
        assert(kind == statuses[i].1);
        assert forall|j: int| 0 <= j < statuses.len() implies tick_distance(t, statuses[i].0)
            < tick_distance(t, (#[trigger] statuses[j]).0) || (tick_distance(t, statuses[i].0)
            == tick_distance(t, statuses[j].0) && statuses[i].0 <= statuses[j].0) by {
            lemma_multiples(statuses[i].0 as int, statuses[j].0 as int, unit);
            if 0 < split < statuses.len() {
                let (p, n) = (statuses[split - 1].0, statuses[split].0);
                assert((p + n) * unit == p * unit + n * unit) by (nonlinear_arith);
                lemma_multiples(p as int, statuses[j].0 as int, unit);
                lemma_multiples(n as int, statuses[j].0 as int, unit);
                lemma_multiples(p as int, n as int, unit);
            }
        }
    }
}

/// The width that a legend leaves to the bar of optimizations.
pub fn bar_width(area_width: u16, legend_width: usize) -> (width: usize)
    ensures
        width == if area_width > legend_width {
            area_width - legend_width
        } else {
            0
        },
{
    let area: usize = area_width as usize;
    if area > legend_width {
        area - legend_width
    } else {
        0
    }
}

impl App {
    /// The kinds that the bar of optimizations shows at some points in time; none where nothing
    /// has been recorded.
    pub fn opt_status_bar(&self, times: &Vec<Binary64>) -> (bar: Vec<OptKind>)
        requires
            forall|i: int| 0 <= i < times@.len() ==> !(#[trigger] times@[i]).is_nan(),
        ensures
            self@.opt_statuses.len() == 0 ==> bar@.len() == 0,
            self@.opt_statuses.len() > 0 ==> bar@.len() == times@.len(),
            is_ordered(self@.opt_statuses) ==> forall|i: int|
                0 <= i < bar@.len() ==> is_nearest_kind(
                    #[trigger] bar@[i],
                    self@.opt_statuses,
                    times@[i],
                ),
    {
        let mut bar: Vec<OptKind> = Vec::new();
        if self.opt_statuses.len() == 0 {
            return bar;
        }
        let mut i: usize = 0;
        while i < times.len()
            invariant
                i <= times@.len(),
                bar@.len() == i,
                self@.opt_statuses.len() > 0,
                forall|k: int| 0 <= k < times@.len() ==> !(#[trigger] times@[k]).is_nan(),
                is_ordered(self@.opt_statuses) ==> forall|k: int|
                    0 <= k < i ==> is_nearest_kind(
                        #[trigger] bar@[k],
                        self@.opt_statuses,
                        times@[k],
                    ),
            decreases times@.len() - i,
        {
            bar.push(find_nearest_opt_status(&self.opt_statuses, times[i]));
            i += 1;
        }
        bar
    }
}

} // verus!
