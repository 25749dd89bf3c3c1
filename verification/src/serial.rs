//! The serial-type catalog: the on-disk byte size of each record column code.

use vstd::prelude::*;

verus! {

/// The on-disk size, in bytes, of a column body with the given serial type.
///
/// Codes 0, 8, 9 and the reserved codes 10 and 11 occupy no bytes; codes 1
/// through 6 are big-endian signed integers of 1, 2, 3, 4, 6 and 8 bytes;
/// code 7 is an 8-byte floating-point body (carried as raw bytes here); even
/// codes from 12 hold `(s - 12) / 2` bytes of BLOB and odd codes from 13 hold
/// `(s - 13) / 2` bytes of text.
pub open spec fn spec_serial_size(serial: u64) -> usize {
    if serial == 1 {
        1
    } else if serial == 2 {
        2
    } else if serial == 3 {
        3
    } else if serial == 4 {
        4
    } else if serial == 5 {
        6
    } else if serial == 6 || serial == 7 {
        8
    } else if serial >= 12 && serial % 2 == 0 {
        (((serial - 12) / 2) as usize)
    } else if serial >= 13 {
        (((serial - 13) / 2) as usize)
    } else {
        0
    }
}

/// Map a serial type code to the byte size of its column body.
pub fn serial_type_size(serial: u64) -> (r: usize)
    ensures
        r == spec_serial_size(serial),
{
    if serial >= 13 && serial % 2 == 1 {
        ((serial - 13) / 2) as usize
    } else if serial >= 12 && serial % 2 == 0 {
        ((serial - 12) / 2) as usize
    } else if serial == 1 {
        1
    } else if serial == 2 {
        2
    } else if serial == 3 {
        3
    } else if serial == 4 {
        4
    } else if serial == 5 {
        6
    } else if serial == 6 || serial == 7 {
        8
    } else {
        0
    }
}

} // verus!
