//! The kernel's DRM query interface: request numbers, and what is handed over with them.
use vstd::prelude::*;

verus! {

/// The number of the first command of a driver's own.
pub const DRM_COMMAND_BASE: u64 = 0x40;

pub const RADEON_GEM_INFO: u64 = 0x1c;

pub const RADEON_INFO: u64 = 0x27;

pub const AMDGPU_INFO: u64 = 0x05;

pub const AMDGPU_INFO_READ_MMR_REG: u32 = 0x15;

pub const AMDGPU_INFO_DEV_INFO: u32 = 0x16;

pub const AMDGPU_INFO_SENSOR: u32 = 0x1d;

/// The sensor of the graphics clock, in megahertz.
pub const SENSOR_GRAPHICS_CLOCK: u32 = 1;

/// The sensor of the memory clock, in megahertz.
pub const SENSOR_MEMORY_CLOCK: u32 = 2;

/// The sensor of the temperature, in thousandths of a degree.
pub const SENSOR_TEMPERATURE: u32 = 3;

pub const INFO_VRAM_USAGE: u32 = 0x1e;

pub const INFO_GPU_SCLK: u32 = 0x22;

pub const INFO_GPU_MCLK: u32 = 0x23;

pub const INFO_READ_REG: u32 = 0x24;

/// The register that shows which parts of the graphics pipe are at work.
pub const GRBM_STATUS: u32 = 0x8010;

/// Its bit for the pipe as a whole.
pub const GUI_ACTIVE: u32 = 0x8000_0000;

/// The bytes of a `GemInfo`.
pub const GEM_INFO_SIZE: usize = 24;

/// The bytes of a `RadeonInfo`.
pub const RADEON_INFO_SIZE: usize = 16;

/// The bytes of an `AmdgpuInfo`.
pub const AMDGPU_INFO_SIZE: usize = 32;

pub const IOCTL_GEM_INFO: u64 = 0xc018_645c;

pub const IOCTL_INFO: u64 = 0xc010_6467;

pub const IOCTL_AMDGPU_INFO: u64 = 0x4020_6445;

/// The sizes of the memories of a device.
#[derive(Clone, Copy, Debug)]
pub struct GemInfo {
    pub gart_size: u64,
    pub vram_size: u64,
    pub vram_visible: u64,
}

/// A question to the `radeon` driver; `value` is the address of the answer.
#[derive(Clone, Copy, Debug)]
pub struct RadeonInfo {
    pub request: u32,
    pub pad: u32,
    pub value: u64,
}

/// A question to the `amdgpu` driver; the answer goes to `return_pointer`.
#[derive(Clone, Copy, Debug)]
pub struct AmdgpuInfo {
    pub return_pointer: u64,
    pub return_size: u32,
    pub query: u32,
    pub data: [u32; 4],
}

/// The number of a request of DRM's with the given direction: its number in the low byte, the
/// letter `d` in the next, the bytes handed over in the next 14 bits, the direction on top.
pub open spec fn request_code(direction: u64, number: u64, size: usize) -> u64 {
    (direction << 30) | ((size as u64) << 16) | (0x64u64 << 8) | number
}

/// The number of a request that hands a structure over and gets it back.
pub fn drm_iowr(number: u64, size: usize) -> (r: u64)
    ensures
        r == request_code(3, number, size),
{
    (3u64 << 30) | ((size as u64) << 16) | (0x64u64 << 8) | number
}

/// The number of a request that hands a structure over.
pub fn drm_iow(number: u64, size: usize) -> (r: u64)
    ensures
        r == request_code(1, number, size),
{
    (1u64 << 30) | ((size as u64) << 16) | (0x64u64 << 8) | number
}

/// A question to the `radeon` driver whose answer goes to `address`.
pub fn radeon_info(request: u32, address: u64) -> (r: RadeonInfo)
    ensures
        r == (RadeonInfo { request, pad: 0, value: address }),
{
    RadeonInfo { request, pad: 0, value: address }
}

/// A question to the `amdgpu` driver whose answer of `size` bytes goes to `address`.
pub fn amdgpu_info(query: u32, data: [u32; 4], address: u64, size: u32) -> (r: AmdgpuInfo)
    ensures
        r == (AmdgpuInfo { return_pointer: address, return_size: size, query, data }),
{
    AmdgpuInfo { return_pointer: address, return_size: size, query, data }
}

/// What the question for a sensor carries.
pub fn sensor_data(sensor: u32) -> (r: [u32; 4])
    ensures
        r@ == seq![sensor, 0, 0, 0],
{
    [sensor, 0, 0, 0]
}

/// What the question for the status register carries: its index in words, one register, on every
/// instance.
pub fn status_register_data() -> (r: [u32; 4])
    ensures
        r@ == seq![(GRBM_STATUS / 4) as u32, 1, u32::MAX, 0],
{
    [GRBM_STATUS / 4, 1, u32::MAX, 0]
}

/// The status says that the graphics pipe is at work.
pub open spec fn is_busy(status: u32) -> bool {
    status & GUI_ACTIVE != 0
}

// ---------------------------------------------------------------------------
// Laws
// ---------------------------------------------------------------------------
/// The parts of a request number do not run into each other: each can be read back.
pub proof fn request_parts(direction: u64, number: u64, size: usize)
    requires
        direction < 4,
        number < 0x100,
        size < 0x4000,
    ensures
        request_code(direction, number, size) == direction * 0x4000_0000 + size * 0x1_0000 + 0x6400
            + number,
{
    let s = size as u64;
    assert((direction << 30) | (s << 16) | (0x64u64 << 8) | number == direction * 0x4000_0000 + s
        * 0x1_0000 + 0x6400 + number) by (bit_vector)
        requires
            direction < 4,
            number < 0x100,
            s < 0x4000,
    ;
}

/// The request numbers are those of the requests that they are named after.
pub proof fn requests_are_encoded()
    ensures
        IOCTL_GEM_INFO == request_code(
            3,
            (DRM_COMMAND_BASE + RADEON_GEM_INFO) as u64,
            GEM_INFO_SIZE,
        ),
        IOCTL_INFO == request_code(3, (DRM_COMMAND_BASE + RADEON_INFO) as u64, RADEON_INFO_SIZE),
        IOCTL_AMDGPU_INFO == request_code(
            1,
            (DRM_COMMAND_BASE + AMDGPU_INFO) as u64,
            AMDGPU_INFO_SIZE,
        ),
{
    request_parts(3, (DRM_COMMAND_BASE + RADEON_GEM_INFO) as u64, GEM_INFO_SIZE);
    request_parts(3, (DRM_COMMAND_BASE + RADEON_INFO) as u64, RADEON_INFO_SIZE);
    request_parts(1, (DRM_COMMAND_BASE + AMDGPU_INFO) as u64, AMDGPU_INFO_SIZE);
}

/// The status is busy exactly if its highest bit is set.
pub proof fn busy_is_the_top_bit(status: u32)
    ensures
        is_busy(status) <==> status >= 0x8000_0000,
{
    assert(status & 0x8000_0000u32 != 0 <==> status >= 0x8000_0000u32) by (bit_vector);
}

} // verus!
