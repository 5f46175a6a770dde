//! The character devices: the console for output and the keyboard queue for
//! input.

use vstd::prelude::*;
use vstd::slice::SliceAdditionalExecFns;
use crate::ringbuf::RingBuf;
use crate::vfs::{DeviceKind, FileError};
use crate::vga::{ansi_run, no_home, Writer};

verus! {

/// The number of bytes the keyboard queue holds.
pub const KEYBOARD_QUEUE_SIZE: usize = 512usize;

/// What the devices act on: the console and the bytes typed and not yet read.
pub struct Devices {
    pub console: Writer,
    pub keyboard: RingBuf<u8, 512>,
}

impl Devices {
    pub open spec fn wf(&self) -> bool {
        self.console.wf() && self.keyboard.wf()
    }

    /// A blank console and an empty keyboard queue.
    pub fn new() -> (r: Devices)
        ensures
            r.wf(),
            r.keyboard.items().len() == 0,
    {
        Devices { console: Writer::new(), keyboard: RingBuf::new() }
    }
}

/// `buffer` after taking as many bytes from the front of `queue` as fit.
pub open spec fn taken(queue: Seq<u8>, len: int) -> int {
    if queue.len() < len {
        queue.len() as int
    } else {
        len
    }
}

/// Reading and writing a device.
pub trait DeviceOps {
    fn read(&self, devices: &mut Devices, offset: usize, buffer: &mut [u8]) -> (r: Result<usize, FileError>)
        requires
            old(devices).wf(),
        ensures
            final(devices).wf(),
    ;

    fn write(&self, devices: &mut Devices, offset: usize, data: &[u8]) -> (r: Result<usize, FileError>)
        requires
            old(devices).wf(),
            no_home(old(devices).console@, data@),
        ensures
            final(devices).wf(),
    ;
}

/// The console, for output.
pub struct Stdout;

/// Error output, shown on the console as output is.
pub struct Stderr;

/// The keyboard, for input.
pub struct Stdin;

fn console_write(devices: &mut Devices, data: &[u8]) -> (r: Result<usize, FileError>)
    requires
        old(devices).wf(),
        no_home(old(devices).console@, data@),
    ensures
        final(devices).wf(),
        final(devices).console@ == ansi_run(old(devices).console@, data@),
        final(devices).keyboard == old(devices).keyboard,
        r == Ok::<usize, FileError>(data@.len() as usize),
{
    devices.console.write_bytes(data);
    Ok(data.len())
}

impl DeviceOps for Stdout {
    fn read(&self, devices: &mut Devices, offset: usize, buffer: &mut [u8]) -> (r: Result<usize, FileError>)
        ensures
            r matches Err(FileError::NotReadableFile),
            *final(devices) == *old(devices),
            final(buffer)@ == old(buffer)@,
    {
        Err(FileError::NotReadableFile)
    }

    fn write(&self, devices: &mut Devices, offset: usize, data: &[u8]) -> (r: Result<usize, FileError>)
        ensures
            final(devices).console@ == ansi_run(old(devices).console@, data@),
            final(devices).keyboard == old(devices).keyboard,
            r == Ok::<usize, FileError>(data@.len() as usize),
    {
        console_write(devices, data)
    }
}

impl DeviceOps for Stderr {
    fn read(&self, devices: &mut Devices, offset: usize, buffer: &mut [u8]) -> (r: Result<usize, FileError>)
        ensures
            r matches Err(FileError::NotReadableFile),
            *final(devices) == *old(devices),
            final(buffer)@ == old(buffer)@,
    {
        Stdout.read(devices, offset, buffer)
    }

    fn write(&self, devices: &mut Devices, offset: usize, data: &[u8]) -> (r: Result<usize, FileError>)
        ensures
            final(devices).console@ == ansi_run(old(devices).console@, data@),
            final(devices).keyboard == old(devices).keyboard,
            r == Ok::<usize, FileError>(data@.len() as usize),
    {
        Stdout.write(devices, offset, data)
    }
}

impl DeviceOps for Stdin {
    /// Takes typed bytes, oldest first, as many as are queued and fit;
    /// with nothing queued the reader has to wait.
    fn read(&self, devices: &mut Devices, offset: usize, buffer: &mut [u8]) -> (r: Result<usize, FileError>)
        ensures
            old(devices).keyboard.items().len() == 0 ==> (r matches Err(FileError::NoDataYet) && *final(devices)
                == *old(devices) && final(buffer)@ == old(buffer)@),
            old(devices).keyboard.items().len() > 0 ==> {
                let n = taken(old(devices).keyboard.items(), old(buffer)@.len() as int);
                &&& r == Ok::<usize, FileError>(n as usize)
                &&& final(buffer)@.len() == old(buffer)@.len()
                &&& final(buffer)@.subrange(0, n) == old(devices).keyboard.items().subrange(0, n)
                &&& final(buffer)@.subrange(n, final(buffer)@.len() as int) == old(buffer)@.subrange(
                    n,
                    old(buffer)@.len() as int,
                )
                &&& final(devices).keyboard.items() == old(devices).keyboard.items().skip(n)
                &&& final(devices).console == old(devices).console
            },
    {
        if devices.keyboard.len() == 0 {
            return Err(FileError::NoDataYet);
        }
        let ghost q = devices.keyboard.items();
        let mut off: usize = 0;
        let mut done = false;
        while off < buffer.len() && !done
            invariant
                devices.wf(),
                devices.console == old(devices).console,
                q == old(devices).keyboard.items(),
                off <= buffer@.len(),
                buffer@.len() == old(buffer)@.len(),
                off <= q.len(),
                devices.keyboard.items() == q.skip(off as int),
                buffer@.subrange(0, off as int) == q.subrange(0, off as int),
                buffer@.subrange(off as int, buffer@.len() as int) == old(buffer)@.subrange(
                    off as int,
                    old(buffer)@.len() as int,
                ),
                done ==> off == q.len(),
            decreases buffer@.len() - off + (if done { 0int } else { 1int }),
        {
            let ghost b0 = buffer@;
            match devices.keyboard.pop() {
                Some(c) => {
                    buffer[off] = c;
                    proof {
                        assert(c == q[off as int]);
                        assert(buffer@.subrange(0, off + 1) =~= q.subrange(0, off + 1));
                        let len = b0.len() as int;
                        let ob = old(buffer)@;
                        assert(buffer@ == b0.update(off as int, c));
                        assert(buffer@.subrange(off + 1, len) =~= b0.subrange(off + 1, len));
                        assert(b0.subrange(off + 1, len) =~= b0.subrange(off as int, len).subrange(1, len - off));
                        assert(ob.subrange(off + 1, len) =~= ob.subrange(off as int, len).subrange(1, len - off));
                        assert(q.skip(off as int).drop_first() =~= q.skip(off + 1));
                    }
                    off = off + 1;
                },
                None => {
                    done = true;
                },
            }
        }
        proof {
            let n = taken(q, old(buffer)@.len() as int);
            assert(off == n);
        }
        Ok(off)
    }

    fn write(&self, devices: &mut Devices, offset: usize, data: &[u8]) -> (r: Result<usize, FileError>)
        ensures
            r matches Err(FileError::NotWritableFile),
            *final(devices) == *old(devices),
    {
        Err(FileError::NotWritableFile)
    }
}

/// What reading the device `kind` into `before` did.
pub open spec fn device_read_outcome(
    kind: DeviceKind,
    old_dev: Devices,
    new_dev: Devices,
    before: Seq<u8>,
    after: Seq<u8>,
    r: Result<usize, FileError>,
) -> bool {
    match kind {
        DeviceKind::Stdout | DeviceKind::Stderr => r matches Err(FileError::NotReadableFile) && new_dev == old_dev
            && after == before,
        DeviceKind::Stdin => {
            &&& old_dev.keyboard.items().len() == 0 ==> (r matches Err(FileError::NoDataYet) && new_dev == old_dev
                && after == before)
            &&& old_dev.keyboard.items().len() > 0 ==> {
                let n = taken(old_dev.keyboard.items(), before.len() as int);
                &&& r == Ok::<usize, FileError>(n as usize)
                &&& after.len() == before.len()
                &&& after.subrange(0, n) == old_dev.keyboard.items().subrange(0, n)
                &&& after.subrange(n, after.len() as int) == before.subrange(n, before.len() as int)
                &&& new_dev.keyboard.items() == old_dev.keyboard.items().skip(n)
                &&& new_dev.console == old_dev.console
            }
        },
    }
}

/// What writing `data` to the device `kind` did.
pub open spec fn device_write_outcome(
    kind: DeviceKind,
    old_dev: Devices,
    new_dev: Devices,
    data: Seq<u8>,
    r: Result<usize, FileError>,
) -> bool {
    match kind {
        DeviceKind::Stdout | DeviceKind::Stderr => {
            &&& new_dev.console@ == ansi_run(old_dev.console@, data)
            &&& new_dev.keyboard == old_dev.keyboard
            &&& r == Ok::<usize, FileError>(data.len() as usize)
        },
        DeviceKind::Stdin => r matches Err(FileError::NotWritableFile) && new_dev == old_dev,
    }
}

/// Reads from the device `kind`.
pub fn device_read(kind: DeviceKind, devices: &mut Devices, offset: usize, buffer: &mut [u8]) -> (r: Result<
    usize,
    FileError,
>)
    requires
        old(devices).wf(),
    ensures
        final(devices).wf(),
        device_read_outcome(kind, *old(devices), *final(devices), old(buffer)@, final(buffer)@, r),
{
    match kind {
        DeviceKind::Stdout => Stdout.read(devices, offset, buffer),
        DeviceKind::Stderr => Stderr.read(devices, offset, buffer),
        DeviceKind::Stdin => Stdin.read(devices, offset, buffer),
    }
}

/// Writes to the device `kind`.
pub fn device_write(kind: DeviceKind, devices: &mut Devices, offset: usize, data: &[u8]) -> (r: Result<
    usize,
    FileError,
>)
    requires
        old(devices).wf(),
        no_home(old(devices).console@, data@),
    ensures
        final(devices).wf(),
        device_write_outcome(kind, *old(devices), *final(devices), data@, r),
{
    match kind {
        DeviceKind::Stdout => Stdout.write(devices, offset, data),
        DeviceKind::Stderr => Stderr.write(devices, offset, data),
        DeviceKind::Stdin => Stdin.write(devices, offset, data),
    }
}

} // verus!
