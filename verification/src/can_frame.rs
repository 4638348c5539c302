//! The 8-byte battery-management CAN frame carried as a raw payload: byte 0
//! holds the state of charge in raw DBC units (0.5 % per unit), byte 1 the
//! cell temperature in °C as a two's-complement byte, the rest is zero.

use vstd::prelude::*;

verus! {

/// The bytes of the CAN frame for a raw state of charge and a temperature.
pub open spec fn can_frame_of(raw_soc: u8, temperature_c: i8) -> Seq<u8> {
    seq![raw_soc, temperature_c as u8, 0u8, 0u8, 0u8, 0u8, 0u8, 0u8]
}

/// Packs a raw state of charge and a temperature into an 8-byte CAN frame.
pub fn pack_bms_can_frame(raw_soc: u8, temperature_c: i8) -> (can_data: [u8; 8])
    ensures
        can_data@ == can_frame_of(raw_soc, temperature_c),
        can_data[0] == raw_soc,
        temperature_c >= 0 ==> can_data[1] == temperature_c,
        temperature_c < 0 ==> can_data[1] == temperature_c + 256,
        forall|i: int| 2 <= i < 8 ==> can_data[i] == 0u8,
{
    proof {
        lemma_pack_layout(raw_soc, temperature_c);
    }
    let mut can_data = [0u8; 8];
    can_data[0] = raw_soc;
    can_data[1] = temperature_c as u8;
    assert(can_data@ =~= can_frame_of(raw_soc, temperature_c));
    can_data
}

/// Unpacks the raw state of charge and the temperature from CAN data; data
/// shorter than two bytes reads as `(0, 0)`.
pub fn unpack_bms_can_frame(can_data: &[u8]) -> (r: (u8, i8))
    ensures
        can_data@.len() < 2 ==> r == (0u8, 0i8),
        can_data@.len() >= 2 ==> r == (can_data@[0], can_data@[1] as i8),
{
    if can_data.len() < 2 {
        return (0, 0);
    }
    (can_data[0], can_data[1] as i8)
}

/// A packed frame holds the raw state of charge in byte 0, the temperature's
/// two's-complement byte in byte 1 (the temperature itself when it is not
/// negative, the temperature plus 256 when it is), and zero in bytes 2 to 7.
pub proof fn lemma_pack_layout(raw_soc: u8, temperature_c: i8)
    ensures
        can_frame_of(raw_soc, temperature_c).len() == 8,
        can_frame_of(raw_soc, temperature_c)[0] == raw_soc,
        temperature_c >= 0 ==> can_frame_of(raw_soc, temperature_c)[1] == temperature_c,
        temperature_c < 0 ==> can_frame_of(raw_soc, temperature_c)[1] == temperature_c + 256,
        forall|i: int| 2 <= i < 8 ==> #[trigger] can_frame_of(raw_soc, temperature_c)[i] == 0u8,
{
    let f = can_frame_of(raw_soc, temperature_c);
    let t = temperature_c;
    assert(t >= 0 ==> (t as u8) == t) by (bit_vector);
    assert(t < 0 ==> (t as u8) == t + 256) by (bit_vector);
    assert(f[2] == 0u8 && f[3] == 0u8 && f[4] == 0u8 && f[5] == 0u8 && f[6] == 0u8 && f[7] == 0u8);
    assert((t as u8) as i8 == t) by (bit_vector);
}

/// Unpacking a packed frame gives back the raw state of charge and the
/// temperature that were packed.
pub proof fn lemma_unpack_after_pack(raw_soc: u8, temperature_c: i8)
    ensures
        can_frame_of(raw_soc, temperature_c).len() == 8,
        can_frame_of(raw_soc, temperature_c)[0] == raw_soc,
        can_frame_of(raw_soc, temperature_c)[1] as i8 == temperature_c,
{
    assert((temperature_c as u8) as i8 == temperature_c) by (bit_vector);
}

} // verus!
