//! A media sample: its timing, whether it is a sync sample, and its bytes.
use vstd::prelude::*;

verus! {

/// A sample of a track.
#[derive(Debug)]
pub struct Mp4Sample {
    pub start_time: u64,
    pub duration: u32,
    pub rendering_offset: i32,
    pub is_sync: bool,
    pub bytes: Vec<u8>,
}

/// Two samples are taken as equal when their timing, sync flag and number
/// of bytes agree; the bytes themselves are not compared.
pub open spec fn same_sample(a: &Mp4Sample, b: &Mp4Sample) -> bool {
    &&& a.start_time == b.start_time
    &&& a.duration == b.duration
    &&& a.rendering_offset == b.rendering_offset
    &&& a.is_sync == b.is_sync
    &&& a.bytes@.len() == b.bytes@.len()
}

impl PartialEq for Mp4Sample {
    fn eq(&self, other: &Self) -> (r: bool) {
        self.start_time == other.start_time && self.duration == other.duration && self.rendering_offset
            == other.rendering_offset && self.is_sync == other.is_sync && self.bytes.len() == other.bytes.len()
    }
}

impl vstd::std_specs::cmp::PartialEqSpecImpl for Mp4Sample {
    open spec fn obeys_eq_spec() -> bool {
        true
    }

    open spec fn eq_spec(&self, other: &Self) -> bool {
        same_sample(self, other)
    }
}

} // verus!
