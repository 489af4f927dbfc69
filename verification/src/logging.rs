//! The log lines that go out over the serial port.
//!
//! A record becomes one line, `[LEVEL]@file:line> message`, and the line goes
//! to the port byte by byte.

use crate::memio::{mmio_outb, Access};
use vstd::prelude::*;
use vstd::string::StringSliceAdditionalSpecFns;

verus! {

/// The I/O port of the first serial interface.
pub const SERIAL_PORT: u16 = 0x3F8;

/// The digits of `n` in base ten, as ASCII, without leading zeros.
pub open spec fn decimal(n: nat) -> Seq<u8>
    decreases n,
{
    if n < 10 {
        seq![(0x30 + n) as u8]
    } else {
        decimal(n / 10).push((0x30 + n % 10) as u8)
    }
}

/// The name of the file of a record that names none: `none`.
pub open spec fn no_file() -> Seq<u8> {
    seq![0x6eu8, 0x6fu8, 0x6eu8, 0x65u8]
}

/// The line for a record: `[`, the level, `]@`, the file or `none`, `:`, the
/// line number or `0`, `> `, the message and a line feed.
pub open spec fn line_of(
    level: Seq<u8>,
    file: Option<Seq<u8>>,
    line: Option<u32>,
    message: Seq<u8>,
) -> Seq<u8> {
    let file = match file {
        Some(name) => name,
        None => no_file(),
    };
    let line = match line {
        Some(n) => n as nat,
        None => 0,
    };
    seq![0x5bu8] + level + seq![0x5du8, 0x40u8] + file + seq![0x3au8] + decimal(line) + seq![
        0x3eu8,
        0x20u8,
    ] + message + seq![0x0au8]
}

/// The accesses that send `bytes` to `port`, first byte first.
pub open spec fn outs(port: u16, bytes: Seq<u8>) -> Seq<Access> {
    Seq::new(bytes.len(), |i: int| Access::Out { port, value: bytes[i] })
}

/// Appends the digits of `n` in base ten to `out`.
fn put_decimal(n: u32, out: &mut Vec<u8>)
    ensures
        final(out)@ == old(out)@ + decimal(n as nat),
    decreases n,
{
    if n >= 10 {
        put_decimal(n / 10, out);
    }
    out.push(0x30 + (n % 10) as u8);
    assert(out@ =~= old(out)@ + decimal(n as nat));
}

/// Appends `bytes` to `out`.
fn put_all(bytes: &[u8], out: &mut Vec<u8>)
    ensures
        final(out)@ == old(out)@ + bytes@,
{
    let mut i: usize = 0;
    while i < bytes.len()
        invariant
            i <= bytes@.len(),
            out@ == old(out)@ + bytes@.take(i as int),
        decreases bytes@.len() - i,
    {
        out.push(bytes[i]);
        i += 1;
        assert(out@ =~= old(out)@ + bytes@.take(i as int));
    }
    assert(bytes@.take(i as int) =~= bytes@);
}

/// Writes log records to the serial port.
pub struct SerialLogger;

impl SerialLogger {
    /// Whether a record is logged: every record is.
    pub fn enabled(&self) -> (enabled: bool)
        ensures
            enabled,
    {
        true
    }

    /// The bytes of the line for a record.
    pub fn line(
        &self,
        level: &str,
        file: Option<&str>,
        line: Option<u32>,
        message: &str,
    ) -> (bytes: Vec<u8>)
        ensures
            bytes@ == line_of(
                level.spec_bytes(),
                match file {
                    Some(name) => Some(name.spec_bytes()),
                    None => None,
                },
                line,
                message.spec_bytes(),
            ),
    {
        let mut out: Vec<u8> = Vec::new();
        out.push(0x5b);
        put_all(level.as_bytes(), &mut out);
        out.push(0x5d);
        out.push(0x40);
        match file {
            Some(name) => {
                put_all(name.as_bytes(), &mut out);
            },
            None => {
                out.push(0x6e);
                out.push(0x6f);
                out.push(0x6e);
                out.push(0x65);
            },
        }
        out.push(0x3a);
        match line {
            Some(n) => {
                put_decimal(n, &mut out);
            },
            None => {
                put_decimal(0, &mut out);
            },
        }
        out.push(0x3e);
        out.push(0x20);
        put_all(message.as_bytes(), &mut out);
        out.push(0x0a);
        assert(out@ =~= line_of(
            level.spec_bytes(),
            match file {
                Some(name) => Some(name.spec_bytes()),
                None => None,
            },
            line,
            message.spec_bytes(),
        ));
        out
    }

    /// The accesses that log a record: its line, sent to the serial port byte
    /// by byte.
    pub fn log(
        &self,
        level: &str,
        file: Option<&str>,
        line: Option<u32>,
        message: &str,
    ) -> (accesses: Vec<Access>)
        ensures
            accesses@ == outs(
                SERIAL_PORT,
                line_of(
                    level.spec_bytes(),
                    match file {
                        Some(name) => Some(name.spec_bytes()),
                        None => None,
                    },
                    line,
                    message.spec_bytes(),
                ),
            ),
    {
        let bytes = self.line(level, file, line, message);
        let mut accesses: Vec<Access> = Vec::new();
        if self.enabled() {
            let mut i: usize = 0;
            while i < bytes.len()
                invariant
                    i <= bytes@.len(),
                    accesses@ == outs(SERIAL_PORT, bytes@.take(i as int)),
                decreases bytes@.len() - i,
            {
                accesses.push(mmio_outb(SERIAL_PORT, bytes[i]));
                i += 1;
                assert(accesses@ =~= outs(SERIAL_PORT, bytes@.take(i as int)));
            }
            assert(bytes@.take(i as int) =~= bytes@);
        }
        accesses
    }

    /// The accesses that flush the logger: none, since no byte of a line is
    /// ever held back.
    pub fn flush(&self) -> (accesses: Vec<Access>)
        ensures
            accesses@.len() == 0,
    {
        Vec::new()
    }
}

} // verus!
