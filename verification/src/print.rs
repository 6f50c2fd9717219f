//! The serial console as the kernel sees it.

use vstd::prelude::*;

verus! {

/// Physical base of the PCI I/O window of the board.
pub const MALTA_PCIIO_BASE: usize = 0x1800_0000;

/// Physical base of the serial port.
pub const MALTA_SERIAL_BASE: usize = MALTA_PCIIO_BASE + 0x3f8;

/// Data register of the serial port.
pub const MALTA_SERIAL_DATA: usize = MALTA_SERIAL_BASE + 0x0;

/// Line status register of the serial port.
pub const MALTA_SERIAL_LSR: usize = MALTA_SERIAL_BASE + 0x5;

/// Line status: the transmit register is empty.
pub const MALTA_SERIAL_THR_EMPTY: u8 = 0x20;

/// Line status: a received byte is ready.
pub const MALTA_SERIAL_DATA_READY: u8 = 0x1;

/// The serial console as the kernel sees it: the bytes it has put and the
/// driver has yet to send, and the bytes the driver has received and the
/// kernel has yet to get.
pub struct Stdout {
    sent: Vec<u8>,
    received: Vec<u8>,
    taken: usize,
}

/// The mathematical state of the console.
pub struct ConsoleState {
    /// Bytes put and not yet sent, oldest first.
    pub output: Seq<u8>,
    /// Bytes received and not yet got, oldest first.
    pub input: Seq<u8>,
}

/// What goes out for one byte: a line feed is preceded by a carriage return.
pub open spec fn expand_newline(byte: u8) -> Seq<u8> {
    if byte == 10 {
        seq![13u8, 10u8]
    } else {
        seq![byte]
    }
}

/// What goes out for a sequence of bytes.
pub open spec fn expand_all(bytes: Seq<u8>) -> Seq<u8>
    decreases bytes.len(),
{
    if bytes.len() == 0 {
        Seq::empty()
    } else {
        expand_all(bytes.drop_last()) + expand_newline(bytes.last())
    }
}

impl View for Stdout {
    type V = ConsoleState;

    closed spec fn view(&self) -> ConsoleState {
        ConsoleState {
            output: self.sent@,
            input: self.received@.subrange(self.taken as int, self.received@.len() as int),
        }
    }
}

impl Stdout {
    /// The read position lies within what was received.
    pub closed spec fn wf(&self) -> bool {
        self.taken <= self.received@.len()
    }

    /// A console with nothing to send and nothing received.
    pub fn new() -> (r: Self)
        ensures
            r.wf(),
            r@.output == Seq::<u8>::empty(),
            r@.input == Seq::<u8>::empty(),
    {
        let r = Stdout { sent: Vec::new(), received: Vec::new(), taken: 0 };
        proof {
            assert(r@.input =~= Seq::<u8>::empty());
        }
        r
    }

    /// Puts one byte.
    pub fn put_byte(&mut self, byte: u8)
        requires
            old(self).wf(),
        ensures
            final(self).wf(),
            final(self)@.output == old(self)@.output + expand_newline(byte),
            final(self)@.input == old(self)@.input,
    {
        if byte == 10 {
            self.sent.push(13);
        }
        self.sent.push(byte);
        proof {
            assert(self@.output =~= old(self)@.output + expand_newline(byte));
        }
    }

    /// Gets the oldest received byte, if there is one.
    pub fn try_get_byte(&mut self) -> (r: Option<u8>)
        requires
            old(self).wf(),
        ensures
            final(self).wf(),
            final(self)@.output == old(self)@.output,
            old(self)@.input.len() == 0 ==> r.is_none() && final(self)@.input == old(self)@.input,
            old(self)@.input.len() > 0 ==> r == Some(old(self)@.input[0]) && final(self)@.input == old(
                self,
            )@.input.drop_first(),
    {
        if self.taken < self.received.len() {
            let b = self.received[self.taken];
            self.taken += 1;
            proof {
                assert(self@.input =~= old(self)@.input.drop_first());
            }
            Some(b)
        } else {
            None
        }
    }

    /// Records a byte that the driver has received from the line.
    pub fn receive(&mut self, byte: u8)
        requires
            old(self).wf(),
        ensures
            final(self).wf(),
            final(self)@.output == old(self)@.output,
            final(self)@.input == old(self)@.input.push(byte),
    {
        self.received.push(byte);
        proof {
            assert(self@.input =~= old(self)@.input.push(byte));
        }
    }

    /// Hands the bytes put so far to the driver, oldest first, and forgets them.
    pub fn take_output(&mut self) -> (r: Vec<u8>)
        requires
            old(self).wf(),
        ensures
            final(self).wf(),
            r@ == old(self)@.output,
            final(self)@.output == Seq::<u8>::empty(),
            final(self)@.input == old(self)@.input,
    {
        let mut out: Vec<u8> = Vec::new();
        core::mem::swap(&mut out, &mut self.sent);
        out
    }

    /// Puts every byte of `s`, in order.
    pub fn write_str(&mut self, s: &Vec<u8>)
        requires
            old(self).wf(),
        ensures
            final(self).wf(),
            final(self)@.output == old(self)@.output + expand_all(s@),
            final(self)@.input == old(self)@.input,
    {
        let mut i: usize = 0;
        while i < s.len()
            invariant
                i <= s@.len(),
                self.wf(),
                self@.input == old(self)@.input,
                self@.output == old(self)@.output + expand_all(s@.subrange(0, i as int)),
            decreases s@.len() - i,
        {
            printcharc(self, s[i]);
            proof {
                let a = s@.subrange(0, i as int);
                let b = s@.subrange(0, i + 1);
                assert(b.drop_last() =~= a);
                assert(b.last() == s@[i as int]);
                assert(self@.output =~= old(self)@.output + expand_all(b));
            }
            i += 1;
        }
        proof {
            assert(s@.subrange(0, i as int) =~= s@);
        }
    }
}

/// Writes one byte to the console; a line feed goes out as carriage return
/// and line feed.
pub fn printcharc(out: &mut Stdout, byte: u8)
    requires
        old(out).wf(),
    ensures
        final(out).wf(),
        final(out)@.output == old(out)@.output + expand_newline(byte),
        final(out)@.input == old(out)@.input,
{
    out.put_byte(byte);
}

/// Reads one byte from the console without waiting: zero when none is ready.
pub fn scancharc(out: &mut Stdout) -> (r: u8)
    requires
        old(out).wf(),
    ensures
        final(out).wf(),
        final(out)@.output == old(out)@.output,
        old(out)@.input.len() == 0 ==> r == 0 && final(out)@.input == old(out)@.input,
        old(out)@.input.len() > 0 ==> r == old(out)@.input[0] && final(out)@.input == old(
            out,
        )@.input.drop_first(),
{
    match out.try_get_byte() {
        Some(b) => b,
        None => 0,
    }
}

/// Writes already formatted text to the console.
pub fn _print(out: &mut Stdout, text: &Vec<u8>)
    requires
        old(out).wf(),
    ensures
        final(out).wf(),
        final(out)@.output == old(out)@.output + expand_all(text@),
        final(out)@.input == old(out)@.input,
{
    out.write_str(text);
}

} // verus!
