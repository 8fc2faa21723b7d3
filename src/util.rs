use vstd::prelude::*;

verus! {

/// Number of invocations in one compute workgroup.
pub const WORKGROUP_SIZE: u32 = 256;

/// Number of workgroups needed to cover `len` items: `len / WORKGROUP_SIZE`
/// rounded up.
pub fn dispatch_size(len: u32) -> (r: u32)
    ensures
        r == (len as int + WORKGROUP_SIZE - 1) / WORKGROUP_SIZE as int,
        r as int * WORKGROUP_SIZE >= len,
        r == 0 || (r as int - 1) * WORKGROUP_SIZE < len,
{
    let r = len / WORKGROUP_SIZE + if len % WORKGROUP_SIZE == 0 { 0 } else { 1 };
    r
}

/// Size in bytes of a buffer holding one packed `u32` color per pixel.
pub fn get_output_buffer_size(width: u32, height: u32) -> (r: u64)
    requires
        width as int * height as int * 4 <= u64::MAX,
    ensures
        r == width as int * height as int * 4,
{
    let pixel_size: u64 = 4;
    let (w, h) = (width as u64, height as u64);
    w * h * pixel_size
}

} // verus!
