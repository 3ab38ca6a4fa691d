//! Markers that tell apart, at the type level, the ways a handler can produce its response.
use vstd::prelude::*;

use std::marker::PhantomData;

verus! {

/// Marker trait for any markers that can be used as a response value.
pub trait ResponseMarker {}

/// Marker for any type that has a TypeScript representation.
pub struct MTs;

impl ResponseMarker for MTs {}

/// Marker for an iterator, whose items (represented by `MItem`) can be any type marked with a
/// [`ResponseMarker`].
pub struct MIter<MItem: ResponseMarker>(pub PhantomData<MItem>);

impl<MItem: ResponseMarker> ResponseMarker for MIter<MItem> {}

/// Marker trait for any markers that can be used as a return value from a handler.
pub trait HandlerReturnMarker {}

/// Marker for any [`ResponseMarker`] which is directly returned.
pub struct MResponse<MValue: ResponseMarker>(pub PhantomData<MValue>);

impl<MValue: ResponseMarker> HandlerReturnMarker for MResponse<MValue> {}

/// Marker for any returned future. The result of the future, `MReturn`, may be any other
/// [`HandlerReturnMarker`].
pub struct MFuture<MReturn: HandlerReturnMarker>(pub PhantomData<MReturn>);

impl<MReturn: HandlerReturnMarker> HandlerReturnMarker for MFuture<MReturn> {}

/// Marker for a stream, whose items are marked with a [`ResponseMarker`].
pub struct MStream<MValue: ResponseMarker>(pub PhantomData<MValue>);

impl<MValue: ResponseMarker> HandlerReturnMarker for MStream<MValue> {}

} // verus!
