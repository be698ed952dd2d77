//! Saving the last telemetry document to a file.
use crate::app::{App, AppView};
use crate::json::{json, JsonView};
use crate::states::law_saving_keeps_well_formed;
use serde_json::Value;
use vstd::prelude::*;

verus! {

/// How long the outcome of an attempt to save is shown, in nanoseconds.
pub const SHOWN_FOR: u64 = 3_000_000_000;

/// A file to write.
#[derive(Debug)]
pub struct SaveRequest {
    pub filename: String,
    pub content: String,
}

/// The text that `serde_json::to_string_pretty` gives for a document, or the message of its
/// error.
pub uninterp spec fn pretty_json(document: JsonView) -> Result<Seq<char>, Seq<char>>;

/// Calls `serde_json::to_string_pretty`. The text, or the message of the error, depends on
/// nothing but the document that the value holds.
#[verifier::external_body]
fn render(value: &Value) -> (rendered: Result<String, String>)
    ensures
        text_of(rendered) == pretty_json(json(*value)),
{
    serde_json::to_string_pretty(value).map_err(|error| error.to_string())
}

/// The text or the message that a result shows.
pub open spec fn text_of(result: Result<String, String>) -> Result<Seq<char>, Seq<char>> {
    match result {
        Ok(text) => Ok(text@),
        Err(message) => Err(message@),
    }
}

/// The name of the file that is written at a given time of day.
pub open spec fn file_name(stamp: Seq<char>) -> Seq<char> {
    "telemetry_"@ + stamp + ".json"@
}

impl AppView {
    /// The state with a new outcome of an attempt to save.
    pub open spec fn told(self, text: Seq<char>, now: u64) -> AppView {
        AppView { save_msg: Some((text, now)), ..self }
    }

    /// The state after an attempt to save has got as far as the file.
    pub open spec fn save_prepared(
        self,
        rendered: Option<Result<Seq<char>, Seq<char>>>,
        now: u64,
    ) -> AppView {
        match rendered {
            Some(Ok(_)) => self,
            Some(Err(message)) => self.told("JSON error: "@ + message, now),
            None => self.told("No data to save yet"@, now),
        }
    }

    /// The state after a file has been written, or not.
    pub open spec fn save_finished(
        self,
        filename: Seq<char>,
        outcome: Result<(), Seq<char>>,
        now: u64,
    ) -> AppView {
        match outcome {
            Ok(_) => self.told("Saved: "@ + filename, now),
            Err(message) => self.told("Save error: "@ + message, now),
        }
    }

    /// The text of the last document, where there is one.
    pub open spec fn last_rendered(self) -> Option<Result<Seq<char>, Seq<char>>> {
        match self.last_json {
            Some(document) => Some(pretty_json(document)),
            None => None,
        }
    }

    /// What the status shows of the last attempt to save: its outcome, for three seconds.
    pub open spec fn save_info(self, now: u64) -> Seq<char> {
        match self.save_msg {
            Some((text, time)) => if now - time < SHOWN_FOR {
                " | "@ + text
            } else {
                Seq::empty()
            },
            None => Seq::empty(),
        }
    }
}

/// Whether a request is for a given text, to be written at a given time of day.
pub open spec fn asks_for(
    request: Option<SaveRequest>,
    rendered: Option<Result<Seq<char>, Seq<char>>>,
    stamp: Seq<char>,
) -> bool {
    match rendered {
        Some(Ok(text)) => {
            &&& request is Some
            &&& request->0.filename@ == file_name(stamp)
            &&& request->0.content@ == text
        },
        _ => request is None,
    }
}

impl App {
    /// Decides on an attempt to save, given the text of the last document or the message of the
    /// error in rendering it.
    pub fn prepare_save(
        &mut self,
        rendered: Option<Result<String, String>>,
        stamp: &str,
        now: u64,
    ) -> (request: Option<SaveRequest>)
        ensures
            ({
                let shown = match rendered {
                    Some(result) => Some(text_of(result)),
                    None => None,
                };
                &&& asks_for(request, shown, stamp@)
                &&& final(self)@ == old(self)@.save_prepared(shown, now)
            }),
            old(self)@.well_formed() ==> final(self)@.well_formed(),
    {
        proof {
            if self@.well_formed() {
                law_saving_keeps_well_formed(self@, "No data to save yet"@, now);
            }
        }
        match rendered {
            Some(Ok(content)) => {
                let mut filename = "telemetry_".to_owned();
                filename.append(stamp);
                filename.append(".json");
                Some(SaveRequest { filename, content })
            },
            Some(Err(message)) => {
                let mut text = "JSON error: ".to_owned();
                text.append(message.as_str());
                proof {
                    if self@.well_formed() {
                        law_saving_keeps_well_formed(self@, text@, now);
                    }
                }
                self.save_msg = Some((text, now));
                None
            },
            None => {
                self.save_msg = Some(("No data to save yet".to_owned(), now));
                None
            },
        }
    }

    /// Starts an attempt to save the last document: gives the file to write, or says why there
    /// is none. `stamp` is the time of day in the name of the file.
    pub fn save_json(&mut self, stamp: &str, now: u64) -> (request: Option<SaveRequest>)
        ensures
            asks_for(request, old(self)@.last_rendered(), stamp@),
            final(self)@ == old(self)@.save_prepared(old(self)@.last_rendered(), now),
            old(self)@.well_formed() ==> final(self)@.well_formed(),
    {
        let rendered = match &self.last_json {
            Some(document) => Some(render(document)),
            None => None,
        };
        self.prepare_save(rendered, stamp, now)
    }

    /// Ends an attempt to save with the outcome of writing the file.
    pub fn finish_save(&mut self, filename: &str, outcome: Result<(), String>, now: u64)
        ensures
            final(self)@ == old(self)@.save_finished(
                filename@,
                match outcome {
                    Ok(_) => Ok(()),
                    Err(message) => Err(message@),
                },
                now,
            ),
            old(self)@.well_formed() ==> final(self)@.well_formed(),
    {
        let text = match outcome {
            Ok(_) => {
                let mut text = "Saved: ".to_owned();
                text.append(filename);
                text
            },
            Err(message) => {
                let mut text = "Save error: ".to_owned();
                text.append(message.as_str());
                text
            },
        };
        proof {
            if self@.well_formed() {
                law_saving_keeps_well_formed(self@, text@, now);
            }
        }
        self.save_msg = Some((text, now));
    }

    /// What the status shows of the last attempt to save.
    pub fn save_info(&self, now: u64) -> (info: String)
        ensures
            info@ == self@.save_info(now),
    {
        match &self.save_msg {
            Some((text, time)) => {
                let age: u64 = if now >= *time {
                    now - *time
                } else {
                    0
                };
                if age < SHOWN_FOR {
                    let mut info = " | ".to_owned();
                    info.append(text.as_str());
                    info
                } else {
                    String::new()
                }
            },
            None => String::new(),
        }
    }
}

/// The outcome of an attempt to save is shown for less than three seconds.
pub proof fn law_outcome_fades(state: AppView, text: Seq<char>, time: u64, now: u64)
    ensures
        now < time + SHOWN_FOR ==> state.told(text, time).save_info(now) == " | "@ + text,
        now >= time + SHOWN_FOR ==> state.told(text, time).save_info(now) == Seq::<char>::empty(),
{
}

} // verus!
