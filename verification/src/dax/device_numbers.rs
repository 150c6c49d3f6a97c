use vstd::prelude::*;

verus! {

/// The major number in the number of a device: bits 8 to 19 and, above them, bits 44 to 63.
pub open spec fn major_of(device: u64) -> u32 {
    (((device & 0x0000_0000_000f_ff00) >> 8) | ((device & 0xffff_f000_0000_0000) >> 32)) as u32
}

/// The minor number in the number of a device: bits 0 to 7 and, above them, bits 20 to 43.
pub open spec fn minor_of(device: u64) -> u32 {
    ((device & 0x0000_0000_0000_00ff) | ((device & 0x0000_0fff_fff0_0000) >> 12)) as u32
}

/// Calls `libc::major`. On Linux it gathers the major number from bits 8 to 19 and 44 to 63 of
/// the device number.
#[verifier::external_body]
fn device_major(device: u64) -> (major: u32)
    ensures
        major == major_of(device),
{
    libc::major(device)
}

/// Calls `libc::minor`. On Linux it gathers the minor number from bits 0 to 7 and 20 to 43 of the
/// device number.
#[verifier::external_body]
fn device_minor(device: u64) -> (minor: u32)
    ensures
        minor == minor_of(device),
{
    libc::minor(device)
}

/// The major and the minor number of the character device with the number `character_device`.
pub fn character_device_major_and_device_minor(character_device: u64) -> (numbers: (u32, u32))
    ensures
        numbers.0 == major_of(character_device),
        numbers.1 == minor_of(character_device),
{
    (device_major(character_device), device_minor(character_device))
}

} // verus!
