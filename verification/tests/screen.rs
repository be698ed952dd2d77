use telemetry_monitor::app::{App, Status};
use telemetry_monitor::binary64::Binary64;
use telemetry_monitor::charts::{bar_width, find_nearest_opt_status, tick_span, Frame};
use telemetry_monitor::options::{AccessConfig, Plot, PlotFlags};
use telemetry_monitor::save::SHOWN_FOR;
use telemetry_monitor::screen::{
    command, opt_kind_color, opt_legend, status_color, Color, Command, Key,
};
use telemetry_monitor::telemetry::OptKind;

fn of(value: f64) -> Binary64 {
    Binary64 { bits: value.to_bits() }
}

fn fresh() -> App {
    App::new(true, None, PlotFlags { queue: true, search: true, points: true, segments: true })
}

#[test]
fn status_line_while_waiting() {
    assert_eq!(fresh().status_text("", 0), "[LOCAL] Waiting for Qdrant process...");
}

#[test]
fn status_line_of_a_remote_process_that_is_gone() {
    let access = AccessConfig { url: "https://host".to_string(), api_key: "key".to_string() };
    let plots = PlotFlags { queue: true, search: true, points: true, segments: true };
    let mut app = App::new(false, Some(access), plots);
    app.status = Status::Offline;
    assert_eq!(
        app.status_text("", 0),
        "[REMOTE] Qdrant process OFFLINE — waiting for reconnect..."
    );
}

#[test]
fn status_line_while_online() {
    let mut app = fresh();
    app.status = Status::Online;
    assert_eq!(
        app.status_text("9us", 0),
        "[LOCAL] Qdrant ONLINE | queue: 0 | search: n/a | waiting for non-zero"
    );
    app.queue_lengths = vec![(0, of(3.0)), (1, of(17.9))];
    app.search_latencies = vec![(0, of(8.6))];
    app.recording = true;
    assert_eq!(
        app.status_text("9us", 0),
        "[LOCAL] Qdrant ONLINE | queue: 17 | search: 9us | samples: 2"
    );
}

#[test]
fn outcome_of_saving_fades_after_three_seconds() {
    let mut app = fresh();
    app.finish_save("file", Ok(()), 1_000);
    assert_eq!(
        app.status_text("", 1_000 + SHOWN_FOR - 1),
        "[LOCAL] Waiting for Qdrant process... | Saved: file"
    );
    assert_eq!(app.status_text("", 1_000 + SHOWN_FOR), "[LOCAL] Waiting for Qdrant process...");
    assert_eq!(app.save_info(0), " | Saved: file");
}

#[test]
fn colors_carry_their_meaning() {
    assert_eq!(opt_kind_color(OptKind::Idle), Color::Green);
    assert_eq!(opt_kind_color(OptKind::MergeOnly), Color::Red);
    assert_eq!(opt_kind_color(OptKind::IndexOnly), Color::Yellow);
    assert_eq!(opt_kind_color(OptKind::Both), Color::Magenta);
    assert_eq!(status_color(Status::WaitingForProcess), Color::Yellow);
    assert_eq!(status_color(Status::Online), Color::Green);
    assert_eq!(status_color(Status::Offline), Color::Red);
}

#[test]
fn keys_ask_for_commands() {
    assert_eq!(command(Key::Char('q'), true), Command::Quit);
    assert_eq!(command(Key::Esc, true), Command::Quit);
    assert_eq!(command(Key::Char('r'), true), Command::Reset);
    assert_eq!(command(Key::Char('s'), true), Command::SaveJson);
    assert_eq!(command(Key::Char('d'), true), Command::DropFirstHalf);
    assert_eq!(command(Key::Char('Q'), true), Command::Ignore);
    assert_eq!(command(Key::Other, true), Command::Ignore);
    assert_eq!(command(Key::Char('q'), false), Command::Ignore);
}

#[test]
fn charts_without_data_have_no_frame() {
    let app = fresh();
    assert!(app.queue_frame().is_none());
    assert!(app.search_frame().is_none());
    assert!(app.points_frame().is_none());
    assert!(app.segments_frame().is_none());
}

#[test]
fn frames_span_the_ticks_and_the_values() {
    let mut app = fresh();
    app.queue_lengths = vec![(3, of(1.0)), (5, of(2.0)), (8, of(1.0))];
    assert_eq!(app.queue_frame(), Some(Frame { x_min: 3, x_max: 8, y_max: of(10.0) }));
    app.max_y_queue = of(0.25);
    assert_eq!(app.queue_frame(), Some(Frame { x_min: 3, x_max: 8, y_max: of(1.0) }));
    app.filtered_search_latencies = vec![(4, of(1.0)), (9, of(2.0))];
    app.max_y_filtered_search = of(120.0);
    assert_eq!(app.search_frame(), Some(Frame { x_min: 4, x_max: 9, y_max: of(120.0) }));
    app.search_latencies = vec![(2, of(1.0)), (6, of(2.0))];
    assert_eq!(app.search_frame(), Some(Frame { x_min: 2, x_max: 9, y_max: of(120.0) }));
    app.plain_points = vec![(1, 7)];
    app.indexed_points = vec![(1, 9), (2, 9)];
    assert_eq!(app.points_frame(), Some(Frame { x_min: 1, x_max: 2, y_max: 100 }));
    app.total_segments = vec![(1, 7), (6, 9)];
    app.max_y_segments = 0;
    assert_eq!(app.segments_frame(), Some(Frame { x_min: 1, x_max: 6, y_max: 1 }));
}

#[test]
fn span_of_two_series() {
    let none: Vec<(u64, u64)> = Vec::new();
    assert_eq!(tick_span(&none, &none), None);
    assert_eq!(tick_span(&vec![(4, 0u8), (2, 0)], &vec![(3, 0)]), Some((2, 4)));
}

#[test]
fn status_nearest_to_a_point_in_time() {
    let statuses = vec![
        (2, OptKind::MergeOnly),
        (4, OptKind::IndexOnly),
        (5, OptKind::Both),
        (100, OptKind::Idle),
    ];
    let at = |t: f64| find_nearest_opt_status(&statuses, of(t));
    assert_eq!(at(-1.0), OptKind::MergeOnly);
    assert_eq!(at(0.0), OptKind::MergeOnly);
    assert_eq!(at(2.0), OptKind::MergeOnly);
    assert_eq!(at(3.0), OptKind::MergeOnly);
    assert_eq!(at(3.0000000000000004), OptKind::IndexOnly);
    assert_eq!(at(4.5), OptKind::IndexOnly);
    assert_eq!(at(4.6), OptKind::Both);
    assert_eq!(at(52.5), OptKind::Both);
    assert_eq!(at(52.50000000000001), OptKind::Idle);
    assert_eq!(at(100.0), OptKind::Idle);
    assert_eq!(at(1e300), OptKind::Idle);
}

#[test]
fn nearest_status_agrees_with_distances_in_floating_point() {
    let ticks: [u64; 7] = [0, 1, 2, 7, 8, 40, 1000];
    let kinds = [OptKind::Idle, OptKind::MergeOnly, OptKind::IndexOnly, OptKind::Both];
    let statuses: Vec<(u64, OptKind)> =
        ticks.iter().enumerate().map(|(i, t)| (*t, kinds[i % 4])).collect();
    for width in [1usize, 3, 7, 10, 33, 80, 121] {
        for col in 0..width {
            let t = (col as f64 / width as f64) * 1000.0;
            let mut expected = OptKind::Idle;
            let mut best = f64::INFINITY;
            for (tick, kind) in &statuses {
                let distance = (t - *tick as f64).abs();
                if distance < best {
                    best = distance;
                    expected = *kind;
                }
            }
            assert_eq!(find_nearest_opt_status(&statuses, of(t)), expected, "{t}");
        }
    }
}

#[test]
fn bar_shows_the_nearest_statuses() {
    let mut app = fresh();
    assert!(app.opt_status_bar(&vec![of(0.0)]).is_empty());
    app.opt_statuses = vec![(0, OptKind::Idle), (1, OptKind::Both)];
    assert_eq!(
        app.opt_status_bar(&vec![of(0.0), of(0.5), of(0.75)]),
        vec![OptKind::Idle, OptKind::Idle, OptKind::Both]
    );
}

#[test]
fn bar_gets_what_the_legend_leaves() {
    assert_eq!(bar_width(80, 31), 49);
    assert_eq!(bar_width(31, 31), 0);
    assert_eq!(bar_width(3, 31), 0);
}

#[test]
fn last_search_latency_is_the_newest_one() {
    let mut app = fresh();
    assert_eq!(app.last_search_latency(), None);
    app.filtered_search_latencies = vec![(0, of(1.0))];
    assert_eq!(app.last_search_latency(), None);
    app.search_latencies = vec![(0, of(8.5)), (3, of(2.25))];
    assert_eq!(app.last_search_latency(), Some(of(2.25)));
}

#[test]
fn lines_show_their_series() {
    let mut app = fresh();
    app.queue_lengths = vec![(0, of(1.0))];
    app.search_latencies = vec![(0, of(2.0))];
    app.filtered_search_latencies = vec![(0, of(3.0))];
    app.plain_points = vec![(0, 4)];
    app.indexed_points = vec![(0, 5)];
    app.total_segments = vec![(0, 6)];
    app.plain_segments = vec![(0, 7)];
    app.nonplain_segments = vec![(0, 8)];
    app.pending_optimizations = vec![(0, 9)];
    assert_eq!(app.queue_lines(), vec![("queue length", Color::Cyan, &vec![(0, of(1.0))])]);
    assert_eq!(
        app.search_lines(),
        vec![
            ("QueryBatch", Color::Magenta, &vec![(0, of(2.0))]),
            ("filtered_plain", Color::Blue, &vec![(0, of(3.0))]),
        ]
    );
    assert_eq!(
        app.point_lines(),
        vec![("plain", Color::Yellow, &vec![(0, 4)]), ("indexed", Color::Green, &vec![(0, 5)])]
    );
    assert_eq!(
        app.segment_lines(),
        vec![
            ("total", Color::White, &vec![(0, 6)]),
            ("plain", Color::Yellow, &vec![(0, 7)]),
            ("non-plain", Color::Green, &vec![(0, 8)]),
            ("pending-opt", Color::Red, &vec![(0, 9)]),
        ]
    );
}

#[test]
fn charts_have_their_titles() {
    let titles = [
        (Plot::Queue, "Update Queue Length (q: quit | r: reset | s: save json)", "Length"),
        (Plot::Search, "Search Avg Latency (us)", "us"),
        (Plot::Points, "Segment Points (plain vs indexed)", "Points"),
        (Plot::Segments, "Segments & Pending Optimizations", "Segments"),
    ];
    for (plot, title, y_title) in titles {
        assert_eq!(plot.title(), title);
        assert_eq!(plot.y_title(), y_title);
    }
}

#[test]
fn legend_lists_every_kind_once() {
    assert_eq!(
        opt_legend(),
        vec![
            ("merge ", OptKind::MergeOnly),
            ("index ", OptKind::IndexOnly),
            ("both ", OptKind::Both),
            ("idle ", OptKind::Idle),
        ]
    );
    let colors: Vec<Color> = opt_legend().iter().map(|entry| opt_kind_color(entry.1)).collect();
    assert_eq!(colors, vec![Color::Red, Color::Yellow, Color::Magenta, Color::Green]);
}
