//! The message value types carried by the bus: fixed-shape snapshots with no
//! behaviour of their own.  A value is produced once, published, and from then
//! on treated as read-only by every consumer.

use vstd::prelude::*;

verus! {

/// An orientation quaternion as produced by the sensor-fusion filter.
///
/// Each component is the IEEE-754 bit pattern of a 32-bit float.  The library
/// never does arithmetic on the components; it only stores and serializes
/// them, so the bit pattern is the natural representation here.  The producer
/// turns its floats into bits (`f32::to_bits`) before publishing.
#[derive(Clone, Copy, PartialEq, Eq, Structural, Debug)]
pub struct Attitude {
    pub qw: u32,
    pub qx: u32,
    pub qy: u32,
    pub qz: u32,
}

/// A host-telemetry snapshot.  Memory and CPU are fractions scaled to 0..=255,
/// the load averages are hundredths, and the temperature is in whole degrees
/// Celsius.
#[derive(Clone, Copy, PartialEq, Eq, Structural, Debug)]
pub struct SysInfo {
    pub free_mem: u8,
    pub avail_mem: u8,
    pub cpu: u8,
    pub load1: u8,
    pub load5: u8,
    pub load15: u8,
    pub temp: i8,
}

/// One encoded video frame: the raw bytes handed over by the capture device.
#[derive(Debug)]
pub struct VideoFrame {
    pub bytes: Vec<u8>,
}

impl View for Attitude {
    type V = Attitude;

    open spec fn view(&self) -> Attitude {
        *self
    }
}

impl View for SysInfo {
    type V = SysInfo;

    open spec fn view(&self) -> SysInfo {
        *self
    }
}

impl View for VideoFrame {
    type V = Seq<u8>;

    open spec fn view(&self) -> Seq<u8> {
        self.bytes@
    }
}

/// What a value must offer to travel on the bus: a mathematical view, and a
/// way to duplicate it so that fan-out can hand every subscriber the same
/// value.  Duplication must be faithful: the copy has the same view.
pub trait Message: View + Sized {
    fn dup(&self) -> (r: Self)
        ensures
            r@ == self@,
    ;
}

impl Message for Attitude {
    fn dup(&self) -> (r: Attitude)
        ensures
            r@ == self@,
    {
        *self
    }
}

impl Message for SysInfo {
    fn dup(&self) -> (r: SysInfo)
        ensures
            r@ == self@,
    {
        *self
    }
}

impl Message for VideoFrame {
    fn dup(&self) -> (r: VideoFrame)
        ensures
            r@ == self@,
    {
        let n = self.bytes.len();
        let mut out: Vec<u8> = Vec::new();
        let mut i: usize = 0;
        while i < n
            invariant
                i <= n,
                n == self.bytes.len(),
                out@ == self.bytes@.take(i as int),
            decreases n - i,
        {
            out.push(self.bytes[i]);
            assert(out@ == self.bytes@.take(i + 1));
            i = i + 1;
        }
        assert(out@ == self.bytes@);
        VideoFrame { bytes: out }
    }
}

} // verus!
