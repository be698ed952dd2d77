//! What the user asks for: which plots to show, and which process to watch.
use crate::text::{trim_trailing_slashes, without_trailing_slashes};
use vstd::prelude::*;

verus! {

/// The address of the telemetry of a local process.
pub const DEFAULT_URL: &'static str = "http://localhost:6333/telemetry?details_level=100";

/// The options on the command line.
#[derive(Clone, Copy, Debug, PartialEq, Eq, Structural)]
pub struct Cli {
    /// Leave the access file alone and watch the local process.
    pub skip_access: bool,
    /// Show the plot of the update queue length.
    pub queue: bool,
    /// Show the plot of the search latency.
    pub search: bool,
    /// Show the plot of the points in plain and in indexed segments.
    pub points: bool,
    /// Show the plot of the number of segments.
    pub segments: bool,
}

/// The plots to show.
#[derive(Clone, Copy, Debug, PartialEq, Eq, Structural)]
pub struct PlotFlags {
    pub queue: bool,
    pub search: bool,
    pub points: bool,
    pub segments: bool,
}

/// A plot.
#[derive(Clone, Copy, Debug, PartialEq, Eq, Structural)]
pub enum Plot {
    Queue,
    Search,
    Points,
    Segments,
}

/// The address and the key of a remote process.
#[derive(Debug)]
pub struct AccessConfig {
    pub url: String,
    pub api_key: String,
}

impl Cli {
    /// The plots that the options ask for by name; without any, all but the points.
    pub open spec fn wanted(self) -> PlotFlags {
        if self.queue || self.search || self.points || self.segments {
            PlotFlags {
                queue: self.queue,
                search: self.search,
                points: self.points,
                segments: self.segments,
            }
        } else {
            PlotFlags { queue: true, search: true, points: false, segments: true }
        }
    }

    /// The plots that the options ask for.
    pub fn plot_flags(&self) -> (flags: PlotFlags)
        ensures
            flags == self.wanted(),
    {
        if self.queue || self.search || self.points || self.segments {
            PlotFlags {
                queue: self.queue,
                search: self.search,
                points: self.points,
                segments: self.segments,
            }
        } else {
            PlotFlags { queue: true, search: true, points: false, segments: true }
        }
    }
}

/// The plot, where it is shown.
pub open spec fn if_shown(shown: bool, plot: Plot) -> Seq<Plot> {
    if shown {
        seq![plot]
    } else {
        Seq::empty()
    }
}

impl PlotFlags {
    /// The plots that are shown, from top to bottom.
    pub open spec fn shown(self) -> Seq<Plot> {
        if_shown(self.queue, Plot::Queue) + if_shown(self.search, Plot::Search) + if_shown(
            self.points,
            Plot::Points,
        ) + if_shown(self.segments, Plot::Segments)
    }

    /// The number of plots that are shown.
    pub fn count(&self) -> (count: u32)
        ensures
            count == self.shown().len(),
    {
        let mut count: u32 = 0;
        if self.queue {
            count += 1;
        }
        if self.search {
            count += 1;
        }
        if self.points {
            count += 1;
        }
        if self.segments {
            count += 1;
        }
        count
    }

    /// The plots that are shown, from top to bottom.
    pub fn plots(&self) -> (plots: Vec<Plot>)
        ensures
            plots@ == self.shown(),
    {
        let mut plots: Vec<Plot> = Vec::new();
        if self.queue {
            plots.push(Plot::Queue);
        }
        if self.search {
            plots.push(Plot::Search);
        }
        if self.points {
            plots.push(Plot::Points);
        }
        if self.segments {
            plots.push(Plot::Segments);
        }
        assert(plots@ =~= self.shown());
        plots
    }
}

/// Some plot is always shown.
pub proof fn law_some_plot_is_shown(cli: Cli)
    ensures
        cli.wanted().shown().len() > 0,
{
}

/// No plot is shown twice.
pub proof fn law_no_plot_is_shown_twice(flags: PlotFlags)
    ensures
        flags.shown().no_duplicates(),
        flags.shown().contains(Plot::Queue) <==> flags.queue,
        flags.shown().contains(Plot::Search) <==> flags.search,
        flags.shown().contains(Plot::Points) <==> flags.points,
        flags.shown().contains(Plot::Segments) <==> flags.segments,
{
    let shown = flags.shown();
    let after_queue = if_shown(flags.queue, Plot::Queue).len() as int;
    let after_search = after_queue + if_shown(flags.search, Plot::Search).len();
    let after_points = after_search + if_shown(flags.points, Plot::Points).len();
    if flags.queue {
        assert(shown[0] == Plot::Queue);
    }
    if flags.search {
        assert(shown[after_queue] == Plot::Search);
    }
    if flags.points {
        assert(shown[after_search] == Plot::Points);
    }
    if flags.segments {
        assert(shown[after_points] == Plot::Segments);
    }
}

/// The address of the telemetry of a process.
pub open spec fn telemetry_url(base: Seq<char>) -> Seq<char> {
    without_trailing_slashes(base) + "/telemetry?details_level=100"@
}

/// Where the telemetry comes from.
#[derive(Debug)]
pub struct Endpoint {
    pub url: String,
    pub api_key: Option<String>,
    pub is_remote: bool,
}

impl Endpoint {
    /// The remote process that the access file gives, or the local one where there is no such
    /// file or it is to be left alone.
    pub fn choose_endpoint(skip_access: bool, access: Option<AccessConfig>) -> (endpoint: Endpoint)
        ensures
            match access {
                Some(config) if !skip_access => {
                    &&& endpoint.url@ == telemetry_url(config.url@)
                    &&& endpoint.api_key == Some(config.api_key)
                    &&& endpoint.is_remote
                },
                _ => {
                    &&& endpoint.url@ == DEFAULT_URL@
                    &&& endpoint.api_key is None
                    &&& !endpoint.is_remote
                },
            },
    {
        match access {
            Some(config) if !skip_access => {
                let mut url = trim_trailing_slashes(config.url.as_str()).to_owned();
                url.append("/telemetry?details_level=100");
                Endpoint { url, api_key: Some(config.api_key), is_remote: true }
            },
            _ => Endpoint { url: DEFAULT_URL.to_owned(), api_key: None, is_remote: false },
        }
    }
}

} // verus!
