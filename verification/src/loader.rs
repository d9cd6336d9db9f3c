//! Decoding in one call: text is tokenized, built and materialised.

use vstd::prelude::*;
use crate::builder::{build_from_events, BuildError, BuildState};
use crate::events::{scanned, ParseEvent, ScanFault};
use crate::host::HostValue;
use crate::materialize::{documents_of, to_host};

verus! {

/// What a run of events, ended by the failure of the tokenizer if there
/// was one, loads: the message of the first scalar that did not resolve;
/// else the failure; else the host value of the documents that were built.
pub open spec fn loaded(
    events: Seq<ParseEvent>,
    fault: Option<ScanFault>,
    dates: bool,
    r: Result<HostValue, BuildError>,
) -> bool {
    match BuildState::initial().run(events) {
        Err(message) => r matches Err(BuildError::Decode(text)) && text@ == message,
        Ok(state) => match fault {
            Some(f) => r == Err::<HostValue, BuildError>(BuildError::Scan(f)),
            None => r matches Ok(value) && value@ == documents_of(state.nodes, state.docs, dates),
        },
    }
}

/// Decodes YAML text into a host value: an empty dict for no document,
/// the value of the one document, a list of the values of several. With
/// `dates` set, strings that spell timestamps become timestamps. The
/// result is what the events of the text build and materialise to.
pub fn load_text(input: &str, dates: bool) -> (r: Result<HostValue, BuildError>)
    ensures
        loaded(scanned(input@).events, scanned(input@).fault, dates, r),
{
    match build_from_events(input) {
        Ok((arena, docs)) => {
            Ok(to_host(&arena, &docs, dates))
        },
        Err(e) => Err(e),
    }
}

} // verus!
