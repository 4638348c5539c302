use up_uds_transport::can_frame::{pack_bms_can_frame, unpack_bms_can_frame};

#[test]
fn pack_places_soc_and_temperature() {
    assert_eq!(pack_bms_can_frame(150, 22), [150, 22, 0, 0, 0, 0, 0, 0]);
    assert_eq!(pack_bms_can_frame(0, -5), [0, 251, 0, 0, 0, 0, 0, 0]);
}

#[test]
fn unpack_gives_back_what_was_packed() {
    for soc in [0u8, 1, 150, 157, 255] {
        for temp in [i8::MIN, -5, 0, 20, 25, i8::MAX] {
            assert_eq!(unpack_bms_can_frame(&pack_bms_can_frame(soc, temp)), (soc, temp));
        }
    }
}

#[test]
fn unpack_short_data_reads_zero() {
    assert_eq!(unpack_bms_can_frame(&[]), (0, 0));
    assert_eq!(unpack_bms_can_frame(&[200]), (0, 0));
    assert_eq!(unpack_bms_can_frame(&[200, 0xFE]), (200, -2));
}
