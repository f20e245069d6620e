//! Processing of a single document.

use vstd::prelude::*;
use crate::model::parse_events;
use crate::tag::{all_canonical, tags_view, AttributeUsage, Tag};
use crate::xmlparser::{config_of, events_view, MarkupEvent, ParseError, XmlDoc};

verus! {

/// The finalized tags of one document whose events are `events`, parsed with
/// attributes as separate tags and the default depths.
pub fn process_single_document(events: &Vec<MarkupEvent>) -> (r: Result<Vec<Tag>, ParseError>)
    ensures
        match parse_events(config_of(AttributeUsage::AddSeparateTag, None, None), events_view(events@)) {
            Ok(m) => r matches Ok(v) && tags_view(v@) == m.tags && all_canonical(v@),
            Err(e) => r matches Err(x) && x@ == e,
        },
{
    match XmlDoc::new(1, events, AttributeUsage::AddSeparateTag, None, None) {
        Ok(doc) => match doc.tags_n_values {
            Some(v) => Ok(v),
            None => Ok(Vec::new()),
        },
        Err(e) => Err(e),
    }
}

} // verus!
