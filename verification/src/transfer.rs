//! The transfer stage: one inbound stream of routed events, two outbound
//! streams.

use crate::error::SSClipError;
use crate::router::RoutedEvent;
use vstd::prelude::*;

verus! {

/// What the transfer stage sends for one routed event, and on which outbound
/// channel.
#[derive(Clone, Debug, PartialEq, Eq)]
pub enum Delivery {
    /// The path goes out on the content channel, as it came in.
    Content(String),
    /// A signal goes out on the reload channel.
    Reload,
}

/// The delivery that a routed event calls for.
pub open spec fn delivery_of(event: RoutedEvent) -> Delivery {
    match event {
        RoutedEvent::ContentPath(path) => Delivery::Content(path),
        RoutedEvent::Reload => Delivery::Reload,
    }
}

/// Decides what the transfer stage does with what its inbound channel gave.
///
/// A routed event is passed on unchanged to the channel of its kind. A
/// receive that failed, `reason` being the channel's account of it, ends the
/// stage with `CrossBeamRecvError`.
pub fn transfer(received: Result<RoutedEvent, String>) -> (r: Result<Delivery, SSClipError>)
    ensures
        r == match received {
            Ok(event) => Ok::<Delivery, SSClipError>(delivery_of(event)),
            Err(reason) => Err::<Delivery, SSClipError>(SSClipError::CrossBeamRecvError(reason)),
        },
{
    match received {
        Ok(RoutedEvent::ContentPath(path)) => Ok(Delivery::Content(path)),
        Ok(RoutedEvent::Reload) => Ok(Delivery::Reload),
        Err(reason) => Err(SSClipError::CrossBeamRecvError(reason)),
    }
}

} // verus!
