use telemetry_monitor::app::App;
use telemetry_monitor::options::{AccessConfig, Cli, Plot, PlotFlags, DEFAULT_URL};
use telemetry_monitor::text::{decimal, same_text, trim_trailing_slashes};

fn cli(queue: bool, search: bool, points: bool, segments: bool) -> Cli {
    Cli { skip_access: false, queue, search, points, segments }
}

#[test]
fn all_plots_but_the_points_are_shown_by_default() {
    let flags = cli(false, false, false, false).plot_flags();
    assert_eq!(flags, PlotFlags { queue: true, search: true, points: false, segments: true });
    assert_eq!(flags.count(), 3);
    assert_eq!(flags.plots(), vec![Plot::Queue, Plot::Search, Plot::Segments]);
}

#[test]
fn named_plots_alone_are_shown() {
    let flags = cli(false, false, true, false).plot_flags();
    assert_eq!(flags, PlotFlags { queue: false, search: false, points: true, segments: false });
    assert_eq!(flags.plots(), vec![Plot::Points]);
    assert_eq!(cli(true, true, true, true).plot_flags().count(), 4);
}

#[test]
fn some_plot_is_always_shown() {
    for bits in 0..16u8 {
        let options = cli(bits & 1 != 0, bits & 2 != 0, bits & 4 != 0, bits & 8 != 0);
        let flags = options.plot_flags();
        assert!(flags.count() > 0);
        assert_eq!(flags.count() as usize, flags.plots().len());
    }
}

fn app(skip_access: bool, url: Option<&str>) -> App {
    let access = url.map(|url| AccessConfig { url: url.to_string(), api_key: "key".to_string() });
    App::new(skip_access, access, cli(false, false, false, false).plot_flags())
}

#[test]
fn access_file_gives_the_remote_process() {
    for url in ["https://host:6333", "https://host:6333/", "https://host:6333///"] {
        let app = app(false, Some(url));
        assert_eq!(app.url, "https://host:6333/telemetry?details_level=100");
        assert_eq!(app.api_key, Some("key".to_string()));
        assert!(app.is_remote);
    }
}

#[test]
fn local_process_is_watched_without_an_access_file() {
    for app in [app(false, None), app(true, None), app(true, Some("https://host"))] {
        assert_eq!(app.url, DEFAULT_URL);
        assert_eq!(app.url, "http://localhost:6333/telemetry?details_level=100");
        assert_eq!(app.api_key, None);
        assert!(!app.is_remote);
    }
}

#[test]
fn slashes_at_the_end_are_trimmed() {
    for text in ["", "/", "//", "a", "a/", "/a//", "a/b", "é/", "😀//"] {
        assert_eq!(trim_trailing_slashes(text), text.trim_end_matches('/'));
    }
}

#[test]
fn numbers_are_written_in_decimal() {
    for number in [0, 1, 9, 10, 11, 99, 100, 101, 1234567890, u64::MAX] {
        assert_eq!(decimal(number), format!("{number}"));
    }
}

#[test]
fn texts_are_equal_character_by_character() {
    let texts = ["", "a", "b", "ab", "é", "e\u{301}", "😀"];
    for a in texts {
        for b in texts {
            assert_eq!(same_text(a, b), a == b);
        }
    }
}
