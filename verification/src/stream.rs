//! What the streams of the library hand on of what they are fed.
use serde_json::Error as JsonError;
use vstd::prelude::*;
use crate::error::{ChannelError, ChannelErrorView, Error};
use crate::json::Json;
use crate::phoenix::SocketEvent;

verus! {

/// What a stream does with something that it was fed.
#[derive(Debug)]
pub enum StreamStep<T> {
    /// Ask the source again.
    Again,
    /// Hand this on.
    Item(T),
    /// The stream is done.
    End,
}

/// What a stream of socket events hands on: events that were missed are passed
/// over. `None` is the end of the source.
pub fn socket_event_step(fed: Option<Result<SocketEvent, String>>) -> (r: StreamStep<SocketEvent>)
    ensures
        match fed {
            Some(Ok(event)) => r == StreamStep::Item(event),
            Some(Err(_)) => r is Again,
            None => r is End,
        },
{
    match fed {
        Some(Ok(event)) => StreamStep::Item(event),
        Some(Err(_)) => StreamStep::Again,
        None => StreamStep::End,
    }
}

/// The failure of a stream of channel events that missed some.
pub open spec fn receive_error(reason: Seq<char>) -> ChannelErrorView {
    ChannelErrorView { operation: "receive"@, topic: Seq::empty(), reason, payload: None }
}

/// What a stream of channel events hands on: events that were missed are
/// reported. `None` is the end of the source.
pub fn channel_event_step(fed: Option<Result<Json, String>>) -> (r: StreamStep<
    Result<Json, Error>,
>)
    ensures
        match fed {
            Some(Ok(value)) => r == StreamStep::Item(Ok::<Json, Error>(value)),
            Some(Err(reason)) => r matches StreamStep::Item(Err(e)) && e.is_channel(
                receive_error(reason@),
            ),
            None => r is End,
        },
{
    match fed {
        Some(Ok(value)) => StreamStep::Item(Ok(value)),
        Some(Err(reason)) => {
            let error = ChannelError {
                operation: "receive".to_owned(),
                topic: String::new(),
                reason,
                payload: None,
            };
            assert(error@.topic =~= Seq::empty());
            StreamStep::Item(Err(Error::Channel(error)))
        },
        None => StreamStep::End,
    }
}

/// An event payload after it was decoded as its type.
pub fn decoded<T>(value: Result<T, JsonError>) -> (r: Result<T, Error>)
    ensures
        match value {
            Ok(v) => r == Ok::<T, Error>(v),
            Err(e) => r == Err::<T, Error>(Error::Json(e)),
        },
{
    match value {
        Ok(v) => Ok(v),
        Err(e) => Err(Error::Json(e)),
    }
}

} // verus!
