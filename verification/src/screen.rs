//! The status line, the colors and the keys.
use crate::app::{App, AppView, Status};
use crate::binary64::Binary64;
use crate::telemetry::OptKind;
use crate::text::{decimal, digits};
use vstd::prelude::*;

verus! {

/// The colors of the screen that carry a meaning.
#[derive(Clone, Copy, Debug, PartialEq, Eq, Structural)]
pub enum Color {
    Green,
    Red,
    Yellow,
    Magenta,
    Cyan,
    Blue,
    White,
}

/// The color of a kind of optimization.
pub open spec fn color_of_kind(kind: OptKind) -> Color {
    match kind {
        OptKind::Idle => Color::Green,
        OptKind::MergeOnly => Color::Red,
        OptKind::IndexOnly => Color::Yellow,
        OptKind::Both => Color::Magenta,
    }
}

/// The color of a kind of optimization.
pub fn opt_kind_color(kind: OptKind) -> (color: Color)
    ensures
        color == color_of_kind(kind),
{
    match kind {
        OptKind::Idle => Color::Green,
        OptKind::MergeOnly => Color::Red,
        OptKind::IndexOnly => Color::Yellow,
        OptKind::Both => Color::Magenta,
    }
}

/// No two kinds of optimization have the same color.
pub proof fn law_kinds_differ_in_color(a: OptKind, b: OptKind)
    requires
        a != b,
    ensures
        color_of_kind(a) != color_of_kind(b),
{
}

/// The legend of the bar of optimizations: what each kind is called there, in the order in which
/// they are listed.
pub open spec fn legend() -> Seq<(Seq<char>, OptKind)> {
    seq![
        ("merge "@, OptKind::MergeOnly),
        ("index "@, OptKind::IndexOnly),
        ("both "@, OptKind::Both),
        ("idle "@, OptKind::Idle),
    ]
}

/// The legend of the bar of optimizations.
pub fn opt_legend() -> (entries: Vec<(&'static str, OptKind)>)
    ensures
        entries@.len() == legend().len(),
        forall|i: int|
            0 <= i < entries@.len() ==> (#[trigger] entries@[i]).0@ == legend()[i].0
                && entries@[i].1 == legend()[i].1,
{
    let mut entries: Vec<(&'static str, OptKind)> = Vec::new();
    entries.push(("merge ", OptKind::MergeOnly));
    entries.push(("index ", OptKind::IndexOnly));
    entries.push(("both ", OptKind::Both));
    entries.push(("idle ", OptKind::Idle));
    entries
}

/// The legend lists every kind of optimization once.
pub proof fn law_legend_lists_every_kind_once(kind: OptKind)
    ensures
        exists|i: int| 0 <= i < legend().len() && (#[trigger] legend()[i]).1 == kind,
        forall|i: int, j: int|
            0 <= i < j < legend().len() ==> (#[trigger] legend()[i]).1 != (
            #[trigger] legend()[j]).1,
{
    let place: int = match kind {
        OptKind::MergeOnly => 0,
        OptKind::IndexOnly => 1,
        OptKind::Both => 2,
        OptKind::Idle => 3,
    };
    assert(legend()[place].1 == kind);
}

/// The color of a status.
pub fn status_color(status: Status) -> (color: Color)
    ensures
        color == match status {
            Status::WaitingForProcess => Color::Yellow,
            Status::Online => Color::Green,
            Status::Offline => Color::Red,
        },
{
    match status {
        Status::WaitingForProcess => Color::Yellow,
        Status::Online => Color::Green,
        Status::Offline => Color::Red,
    }
}

/// A key on the keyboard.
#[derive(Clone, Copy, Debug, PartialEq, Eq, Structural)]
pub enum Key {
    Char(char),
    Esc,
    Other,
}

/// What a key asks for.
#[derive(Clone, Copy, Debug, PartialEq, Eq, Structural)]
pub enum Command {
    Quit,
    Reset,
    SaveJson,
    DropFirstHalf,
    Ignore,
}

/// What a key asks for when it is pressed; when it is released or repeated it asks for nothing.
pub open spec fn command_of(key: Key, pressed: bool) -> Command {
    if !pressed {
        Command::Ignore
    } else {
        match key {
            Key::Esc => Command::Quit,
            Key::Char(c) => if c == 'q' {
                Command::Quit
            } else if c == 'r' {
                Command::Reset
            } else if c == 's' {
                Command::SaveJson
            } else if c == 'd' {
                Command::DropFirstHalf
            } else {
                Command::Ignore
            },
            Key::Other => Command::Ignore,
        }
    }
}

/// What a key asks for.
pub fn command(key: Key, pressed: bool) -> (command: Command)
    ensures
        command == command_of(key, pressed),
{
    if !pressed {
        return Command::Ignore;
    }
    match key {
        Key::Esc => Command::Quit,
        Key::Char(c) => if c == 'q' {
            Command::Quit
        } else if c == 'r' {
            Command::Reset
        } else if c == 's' {
            Command::SaveJson
        } else if c == 'd' {
            Command::DropFirstHalf
        } else {
            Command::Ignore
        },
        Key::Other => Command::Ignore,
    }
}

impl AppView {
    /// Where the watched process runs.
    pub open spec fn mode(self) -> Seq<char> {
        if self.is_remote {
            "REMOTE"@
        } else {
            "LOCAL"@
        }
    }

    /// The last queue length, without its fractional part.
    pub open spec fn last_queue(self) -> nat {
        if self.queue_lengths.len() > 0 {
            self.queue_lengths.last().1.truncated() as nat
        } else {
            0
        }
    }

    /// The last search latency; none where no search latency has been seen.
    pub open spec fn last_search_latency(self) -> Option<Binary64> {
        if self.search_latencies.len() > 0 {
            Some(self.search_latencies.last().1)
        } else {
            None
        }
    }

    /// The status line, given the last search latency as text.
    pub open spec fn status_line(self, latency: Seq<char>, now: u64) -> Seq<char> {
        "["@ + self.mode() + match self.status {
            Status::WaitingForProcess => "] Waiting for Qdrant process..."@,
            Status::Online => "] Qdrant ONLINE | queue: "@ + digits(self.last_queue())
                + " | search: "@ + (match self.last_search_latency() {
                Some(_) => latency,
                None => "n/a"@,
            }) + (if self.recording {
                " | samples: "@ + digits(self.queue_lengths.len())
            } else {
                " | waiting for non-zero"@
            }),
            Status::Offline => "] Qdrant process OFFLINE — waiting for reconnect..."@,
        } + self.save_info(now)
    }
}

impl App {
    /// The last search latency, which the status line shows; none where no search latency has
    /// been seen.
    pub fn last_search_latency(&self) -> (latency: Option<Binary64>)
        ensures
            latency == if self@.search_latencies.len() > 0 {
                Some(self@.search_latencies.last().1)
            } else {
                None
            },
    {
        let count: usize = self.search_latencies.len();
        if count > 0 {
            Some(self.search_latencies[count - 1].1)
        } else {
            None
        }
    }

    /// The status line. `latency` is what [`App::last_search_latency`] gives, as text; where it
    /// gives none, the text is left out.
    pub fn status_text(&self, latency: &str, now: u64) -> (line: String)
        ensures
            line@ == self@.status_line(latency@, now),
    {
        let mut line = "[".to_owned();
        line.append(
            if self.is_remote {
                "REMOTE"
            } else {
                "LOCAL"
            },
        );
        let ghost start = line@;
        match self.status {
            Status::WaitingForProcess => {
                line.append("] Waiting for Qdrant process...");
            },
            Status::Online => {
                let queue: u64 = if self.queue_lengths.len() > 0 {
                    self.queue_lengths[self.queue_lengths.len() - 1].1.to_u64()
                } else {
                    0
                };
                line.append("] Qdrant ONLINE | queue: ");
                line.append(decimal(queue).as_str());
                line.append(" | search: ");
                line.append(
                    match self.last_search_latency() {
                        Some(_) => latency,
                        None => "n/a",
                    },
                );
                if self.recording {
                    line.append(" | samples: ");
                    line.append(decimal(self.queue_lengths.len() as u64).as_str());
                } else {
                    line.append(" | waiting for non-zero");
                }
            },
            Status::Offline => {
                line.append("] Qdrant process OFFLINE — waiting for reconnect...");
            },
        }
        line.append(self.save_info(now).as_str());
        assert(line@ =~= self@.status_line(latency@, now));
        line
    }
}

} // verus!
