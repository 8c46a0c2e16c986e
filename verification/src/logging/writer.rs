//! What the writer of the log does next.

use vstd::prelude::*;

verus! {

/// What the writer wakes up to.
#[derive(Debug, Clone, Copy, PartialEq, Eq, Structural)]
pub enum WriterEvent {
    Record,
    Flush,
    Shutdown,
    Timeout,
    Disconnected,
}

/// What the writer does: write the record it got, report what was dropped and write everything
/// out, answer a request, stop.
#[derive(Debug, Clone, Copy, PartialEq, Eq, Structural)]
pub struct WriterStep {
    pub write: bool,
    pub flush: bool,
    pub answer: bool,
    pub stop: bool,
}

/// What the writer does on an event, `since_flush` milliseconds after everything was last
/// written out: a record is followed by a flush when that is due.
pub fn writer_step(event: WriterEvent, since_flush: u64, flush_interval: u64) -> (r: WriterStep)
    ensures
        r.write == (event == WriterEvent::Record),
        r.flush == (event != WriterEvent::Record || since_flush >= flush_interval),
        r.answer == (event == WriterEvent::Flush || event == WriterEvent::Shutdown),
        r.stop == (event == WriterEvent::Shutdown || event == WriterEvent::Disconnected),
{
    match event {
        WriterEvent::Record => WriterStep {
            write: true,
            flush: since_flush >= flush_interval,
            answer: false,
            stop: false,
        },
        WriterEvent::Flush => WriterStep { write: false, flush: true, answer: true, stop: false },
        WriterEvent::Shutdown => WriterStep { write: false, flush: true, answer: true, stop: true },
        WriterEvent::Timeout => WriterStep { write: false, flush: true, answer: false, stop: false },
        WriterEvent::Disconnected => WriterStep {
            write: false,
            flush: true,
            answer: false,
            stop: true,
        },
    }
}

/// The first error since the last request is the one that is reported.
pub fn remember_writer_error(pending_error: &mut Option<String>, result: Result<(), String>)
    ensures
        *final(pending_error) == match (*old(pending_error), result) {
            (None, Err(error)) => Some(error),
            (pending, _) => pending,
        },
{
    if let Err(error) = result {
        if pending_error.is_none() {
            *pending_error = Some(error);
        }
    }
}

/// The answer to a request to flush: the error that is pending, which is then forgotten.
pub fn flush_result(pending_error: &mut Option<String>) -> (r: Result<(), String>)
    ensures
        *final(pending_error) == None::<String>,
        r == match *old(pending_error) {
            Some(error) => Err(error),
            None => Ok(()),
        },
{
    match pending_error.take() {
        Some(error) => Err(error),
        None => Ok(()),
    }
}

} // verus!
