use pathtrace::pixel::{pack_rgba, unpack_rgba};

#[test]
fn pack_places_red_lowest_and_alpha_highest() {
    assert_eq!(pack_rgba(0x11, 0x22, 0x33, 0x44), 0x4433_2211);
    assert_eq!(pack_rgba(0, 0, 0, 255), 0xff00_0000);
    assert_eq!(pack_rgba(255, 0, 0, 0), 0x0000_00ff);
    assert_eq!(pack_rgba(255, 255, 255, 255), u32::MAX);
    assert_eq!(pack_rgba(0, 0, 0, 0), 0);
}

#[test]
fn pack_matches_shift_convention() {
    let (r, g, b, a) = (200u32, 17u32, 64u32, 255u32);
    assert_eq!(pack_rgba(200, 17, 64, 255), (a << 24) | (b << 16) | (g << 8) | r);
}

#[test]
fn unpack_splits_channels() {
    assert_eq!(unpack_rgba(0x4433_2211), (0x11, 0x22, 0x33, 0x44));
    assert_eq!(unpack_rgba(0), (0, 0, 0, 0));
    assert_eq!(unpack_rgba(u32::MAX), (255, 255, 255, 255));
}

#[test]
fn unpack_of_pack_round_trips() {
    let samples: [(u8, u8, u8, u8); 6] = [
        (0, 0, 0, 0),
        (1, 2, 3, 4),
        (254, 127, 0, 255),
        (255, 255, 255, 255),
        (10, 200, 30, 255),
        (0, 255, 0, 128),
    ];
    for &(r, g, b, a) in samples.iter() {
        assert_eq!(unpack_rgba(pack_rgba(r, g, b, a)), (r, g, b, a));
    }
}

#[test]
fn pack_of_unpack_round_trips() {
    for &p in [0u32, 1, 0xdead_beef, 0xff00_ff00, u32::MAX, 0x0102_0304].iter() {
        let (r, g, b, a) = unpack_rgba(p);
        assert_eq!(pack_rgba(r, g, b, a), p);
    }
}
