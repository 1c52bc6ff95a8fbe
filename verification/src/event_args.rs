//! What the decoder hands to the subscribers of a session.

use crate::error::DecodeError;
use crate::manifest::{EntryView, Manifest};
use crate::typed_value::{TypedValue, Value};
use vstd::prelude::*;

verus! {

/// A value that arrived for a state.
#[derive(Debug)]
pub struct ReceivedDataArgs {
    pub command_id: i32,
    pub data: TypedValue,
}

impl ReceivedDataArgs {
    pub fn new(command_id: i32, data: TypedValue) -> (args: Self)
        ensures
            args.command_id == command_id,
            args.data == data,
    {
        Self { command_id, data }
    }
}

/// A manifest that arrived.
pub struct ReceivedManifestArgs {
    pub manifest: Manifest,
}

impl ReceivedManifestArgs {
    pub fn new(manifest: Manifest) -> (args: Self)
        ensures
            args.manifest == manifest,
    {
        Self { manifest }
    }
}

/// One completed frame of the inbound stream.
pub enum Received {
    /// A value for a state: the data subscribers are told.
    Data(ReceivedDataArgs),
    /// A new manifest: the manifest subscribers are told.
    Manifest(ReceivedManifestArgs),
    /// A frame that could not be decoded.
    Failed(DecodeError),
}

/// What a [`Received`] is, over the views of what it carries.
pub enum ReceivedView {
    Data(i32, Value),
    Manifest(Seq<EntryView>),
    Failed(DecodeError),
}

impl View for Received {
    type V = ReceivedView;

    open spec fn view(&self) -> ReceivedView {
        match self {
            Received::Data(args) => ReceivedView::Data(args.command_id, args.data@),
            Received::Manifest(args) => ReceivedView::Manifest(args.manifest@),
            Received::Failed(error) => ReceivedView::Failed(*error),
        }
    }
}

/// The views of a list of completed frames, in order.
pub open spec fn received_views(events: Seq<Received>) -> Seq<ReceivedView> {
    events.map_values(|e: Received| e@)
}

} // verus!
