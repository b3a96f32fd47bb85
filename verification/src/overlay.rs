//! The overlay stream: one-way status messages for a HUD, each a one-letter
//! code and its payload behind a length prefix.

use vstd::prelude::*;

use crate::codec::{frame, framed};
use crate::error::OverlayError;
use crate::state::ServerState;
use crate::text::{
    decimal, find, fixed_width, index_of, push_bytes, push_decimal, push_fixed_width, to_vec,
};

verus! {

/// How many bytes of a greeting are looked at.
pub const GREETING_WINDOW: usize = 1024;

/// An overlay connection, seen from the rules: the bytes that wait to be
/// written to it.
#[derive(Clone, Debug)]
pub struct Overlay {
    pub outbox: Vec<u8>,
}

/// A message of one code letter and one number.
pub open spec fn numbered(code: u8, n: nat) -> Seq<u8> {
    seq![code] + decimal(n)
}

/// A lap time as minutes, seconds and milliseconds: `mm:ss.SSS`, the minutes
/// with more digits where two do not hold them.
pub open spec fn lap_time_text(ms: u64) -> Seq<u8> {
    let minutes = (ms / 60000) as nat;
    let seconds = (ms % 60000 / 1000) as nat;
    let millis = (ms % 1000) as nat;
    (if minutes < 100 {
        fixed_width(minutes, 2)
    } else {
        decimal(minutes)
    }) + seq![58u8] + fixed_width(seconds, 2) + seq![46u8] + fixed_width(millis, 3)
}

/// Lap times in order, joined by dashes.
pub open spec fn lap_times_text(times: Seq<u64>) -> Seq<u8>
    decreases times.len(),
{
    if times.len() == 0 {
        Seq::empty()
    } else if times.len() == 1 {
        lap_time_text(times[0])
    } else {
        lap_times_text(times.drop_last()) + seq![45u8] + lap_time_text(times.last())
    }
}

/// The part of a greeting that is looked at.
pub open spec fn greeting_window(greeting: Seq<u8>) -> Seq<u8> {
    if greeting.len() > GREETING_WINDOW {
        greeting.take(GREETING_WINDOW as int)
    } else {
        greeting
    }
}

/// The name that a greeting announces. A greeting is the letter `H`, the
/// name, and a zero byte; a greeting that ends before the zero byte is taken
/// as ended by it. A greeting that fills the window without a zero byte
/// announces the empty name. Anything that does not begin with `H` is no
/// greeting.
pub open spec fn greeting_name(greeting: Seq<u8>) -> Option<Seq<u8>> {
    let window = greeting_window(greeting);
    if window.len() == 0 || window[0] != 72 {
        None
    } else {
        let end = 1 + index_of(window.skip(1), 0);
        if end < window.len() || window.len() < GREETING_WINDOW {
            Some(window.subrange(1, end))
        } else {
            Some(Seq::empty())
        }
    }
}

/// Appends a lap time as `mm:ss.SSS`.
pub fn push_lap_time(out: &mut Vec<u8>, ms: u64)
    ensures
        final(out)@ == old(out)@ + lap_time_text(ms),
{
    let minutes = ms / 60000;
    let seconds = ms % 60000 / 1000;
    let millis = ms % 1000;
    if minutes < 100 {
        push_fixed_width(out, minutes, 2);
    } else {
        push_decimal(out, minutes);
    }
    out.push(58);
    push_fixed_width(out, seconds, 2);
    out.push(46);
    push_fixed_width(out, millis, 3);
    assert(out@ =~= old(out)@ + lap_time_text(ms));
}

impl Overlay {
    /// What the overlay holds after one more message: the message behind its
    /// length prefix at the end of the outbox. A message too long for the
    /// prefix is dropped.
    pub open spec fn told(before: Overlay, after: Overlay, message: Seq<u8>) -> bool {
        after.outbox@ == before.outbox@ + (if message.len() <= u32::MAX {
            framed(message)
        } else {
            Seq::empty()
        })
    }

    /// Accepts an overlay connection from the first bytes it sent, and tells
    /// whose overlay it is.
    pub fn new(greeting: &[u8]) -> (r: Result<(Vec<u8>, Overlay), OverlayError>)
        ensures
            match r {
                Ok((name, overlay)) => greeting_name(greeting@) == Some(name@)
                    && overlay.outbox@ == Seq::<u8>::empty(),
                Err(e) => e == OverlayError::ConnectionError && greeting_name(greeting@) is None,
            },
    {
        let window = if greeting.len() > GREETING_WINDOW {
            &greeting[0..GREETING_WINDOW]
        } else {
            greeting
        };
        assert(window@ =~= greeting_window(greeting@));
        if window.len() == 0 || window[0] != 72 {
            return Err(OverlayError::ConnectionError);
        }
        let end = find(window, 1, 0);
        let name = if end < window.len() || window.len() < GREETING_WINDOW {
            to_vec(&window[1..end])
        } else {
            Vec::new()
        };
        Ok((name, Overlay { outbox: Vec::new() }))
    }

    /// Queues one message behind its length prefix.
    pub fn write(&mut self, data: &[u8])
        ensures
            Overlay::told(*old(self), *final(self), data@),
    {
        match frame(data) {
            Some(bytes) => {
                push_bytes(&mut self.outbox, bytes.as_slice());
            },
            None => {
                assert(self.outbox@ + Seq::<u8>::empty() =~= self.outbox@);
            },
        }
    }

    /// Queues a message of one code letter and one number.
    pub fn write_numbered(&mut self, code: u8, n: u64)
        ensures
            Overlay::told(*old(self), *final(self), numbered(code, n as nat)),
    {
        let mut data: Vec<u8> = Vec::new();
        data.push(code);
        push_decimal(&mut data, n);
        assert(data@ =~= numbered(code, n as nat));
        self.write(data.as_slice());
    }

    /// Tells the overlay the current lap: `L<n>`.
    pub fn set_laps(&mut self, laps: usize)
        ensures
            Overlay::told(*old(self), *final(self), numbered(76, laps as nat)),
    {
        self.write_numbered(76, laps as u64);
    }

    /// Tells the overlay the number of laps of the race: `M<n>`.
    pub fn set_max_laps(&mut self, max_laps: usize)
        ensures
            Overlay::told(*old(self), *final(self), numbered(77, max_laps as nat)),
    {
        self.write_numbered(77, max_laps as u64);
    }

    /// Tells the overlay the phase: `S<n>`.
    pub fn set_state(&mut self, state: &ServerState)
        ensures
            Overlay::told(*old(self), *final(self), numbered(83, state.spec_id() as nat)),
    {
        self.write_numbered(83, state.id() as u64);
    }

    /// Tells the overlay the lap-time history: `Q<t0>-<t1>-…`.
    pub fn set_lap_times(&mut self, laps: &Vec<u64>)
        ensures
            Overlay::told(*old(self), *final(self), seq![81u8] + lap_times_text(laps@)),
    {
        let mut data: Vec<u8> = Vec::new();
        data.push(81);
        let mut i: usize = 0;
        assert(laps@.take(0) =~= Seq::<u64>::empty());
        assert(data@ =~= seq![81u8] + lap_times_text(laps@.take(0)));
        while i < laps.len()
            invariant
                i <= laps.len(),
                data@ == seq![81u8] + lap_times_text(laps@.take(i as int)),
            decreases laps.len() - i,
        {
            let ghost done = laps@.take(i as int);
            let ghost next = laps@.take(i + 1);
            assert(next.drop_last() =~= done);
            assert(next.last() == laps@[i as int]);
            if i > 0 {
                data.push(45);
            }
            push_lap_time(&mut data, laps[i]);
            assert(data@ =~= seq![81u8] + lap_times_text(next));
            i += 1;
        }
        assert(laps@.take(i as int) =~= laps@);
        self.write(data.as_slice());
    }

    /// Tells the overlay the countdown: `C<n>`.
    pub fn set_countdown(&mut self, countdown: u8)
        ensures
            Overlay::told(*old(self), *final(self), numbered(67, countdown as nat)),
    {
        self.write_numbered(67, countdown as u64);
    }

    /// What the overlay holds after it was told a position: `A<position>`,
    /// then `B<max_position>`.
    pub open spec fn placed(
        before: Overlay,
        after: Overlay,
        position: usize,
        max_position: usize,
    ) -> bool {
        exists|between: Overlay|
            Overlay::told(before, between, numbered(65, position as nat)) && Overlay::told(
                between,
                after,
                numbered(66, max_position as nat),
            )
    }

    /// Tells the overlay the current position and the size of the field.
    pub fn set_position(&mut self, position: usize, max_position: usize)
        ensures
            Overlay::placed(*old(self), *final(self), position, max_position),
    {
        self.write_numbered(65, position as u64);
        let ghost between = *self;
        self.write_numbered(66, max_position as u64);
        assert(Overlay::told(*old(self), between, numbered(65, position as nat)));
    }
}

} // verus!
