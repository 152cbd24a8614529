//! A compact description of a scanned event, carried inside errors so a
//! failure names what actually stood where something else was expected.

use vstd::prelude::*;
use super::error::ParsedNameOrBytes;
use crate::xml::Event;

verus! {

/// What kind of event stood at the failure, and its name if it had one.
#[derive(Debug, PartialEq)]
pub struct EventSummary {
    pub name: Option<ParsedNameOrBytes>,
    pub e_type: &'static str,
}

impl EventSummary {
    /// Describe any scanned event.
    pub fn new(e: &Event) -> Self {
        match e {
            Event::Decl => EventSummary { name: None, e_type: "decl" },
            Event::Start(t) => EventSummary {
                name: Some(ParsedNameOrBytes::new(t.name.as_slice())),
                e_type: "start",
            },
            Event::Empty(t) => EventSummary {
                name: Some(ParsedNameOrBytes::new(t.name.as_slice())),
                e_type: "empty",
            },
            Event::End(n) => EventSummary {
                name: Some(ParsedNameOrBytes::new(n.as_slice())),
                e_type: "end",
            },
            Event::Text(_) => EventSummary { name: None, e_type: "text" },
            Event::Other => EventSummary { name: None, e_type: "other" },
            Event::Eof => EventSummary { name: None, e_type: "eof" },
        }
    }

    /// Describe the end of the input.
    pub fn eof() -> Self {
        EventSummary { name: None, e_type: "eof" }
    }

    /// Describe an opening tag by its name.
    pub fn start(name: &[u8]) -> Self {
        EventSummary { name: Some(ParsedNameOrBytes::new(name)), e_type: "start" }
    }

    /// Describe a closing tag by its name.
    pub fn end(name: &[u8]) -> Self {
        EventSummary { name: Some(ParsedNameOrBytes::new(name)), e_type: "end" }
    }

    /// Describe a text run.
    pub fn text() -> Self {
        EventSummary { name: None, e_type: "text" }
    }
}

} // verus!
