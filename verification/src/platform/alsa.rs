//! The ALSA audio backend: what its writer thread does at each turn. The
//! device calls themselves are made by the program around the library.
use vstd::prelude::*;

verus! {

/// Start-up work for the ALSA backend: it needs none.
pub fn init() {
}

/// How many samples the writer hands to the device at most in one write.
pub const CHUNK_SAMPLES: usize = 256;

/// What the writer thread does next.
#[derive(Debug, Clone, Copy, PartialEq, Eq, Structural)]
pub enum WriterAction {
    /// The stream was stopped or its device closed: the thread ends.
    Stop,
    /// Write the next `count` buffered samples to the device.
    Write { count: usize },
    /// The stream is paused: write a chunk of silence, leaving the buffered
    /// samples where they are.
    Silence,
    /// Nothing is buffered yet: sleep briefly and look again.
    Wait,
}

/// The buffered samples that have not been played: those after the read
/// position (none when the position is at or past the end).
pub open spec fn available(pcm_len: int, read_pos: int) -> int {
    if pcm_len > read_pos {
        pcm_len - read_pos
    } else {
        0
    }
}

/// The writer stops once the stream is cancelled or its device is gone; a
/// paused stream plays silence and never advances; a playing stream writes
/// up to `chunk` of the buffered samples, or waits when none are buffered.
pub open spec fn writer_action(
    cancelled: bool,
    device_open: bool,
    playing: bool,
    available: int,
    chunk: int,
) -> WriterAction {
    if cancelled || !device_open {
        WriterAction::Stop
    } else if !playing {
        WriterAction::Silence
    } else if available > 0 {
        WriterAction::Write { count: (if available < chunk { available } else { chunk }) as usize }
    } else {
        WriterAction::Wait
    }
}

/// One turn of the writer over a buffer of `pcm_len` samples read up to
/// `read_pos`: what to do, and the read position afterwards (moved past the
/// samples written, and only then).
pub fn writer_step(
    cancelled: bool,
    device_open: bool,
    playing: bool,
    pcm_len: usize,
    read_pos: usize,
    chunk: usize,
) -> (r: (WriterAction, usize))
    ensures
        r.0 == writer_action(cancelled, device_open, playing, available(pcm_len as int, read_pos as int), chunk as int),
        r.1 == match r.0 {
            WriterAction::Write { count } => read_pos + count,
            _ => read_pos as int,
        },
        r.0 matches WriterAction::Write { count } ==> count <= chunk && read_pos + count <= pcm_len,
{
    if cancelled || !device_open {
        return (WriterAction::Stop, read_pos);
    }
    if !playing {
        return (WriterAction::Silence, read_pos);
    }
    if pcm_len > read_pos {
        let left = pcm_len - read_pos;
        let count = if left < chunk {
            left
        } else {
            chunk
        };
        (WriterAction::Write { count }, read_pos + count)
    } else {
        (WriterAction::Wait, read_pos)
    }
}

/// After a write that returned `write_result` (a negative error code on
/// failure), and the result of the recovery attempted after a failure: the
/// writer goes on unless the write failed and could not be recovered.
pub fn writer_continues(write_result: i64, recovered: Option<i32>) -> (r: bool)
    ensures
        r == (write_result >= 0 || (recovered matches Some(code) && code >= 0)),
{
    if write_result >= 0 {
        return true;
    }
    match recovered {
        Some(code) => code >= 0,
        None => false,
    }
}

} // verus!
