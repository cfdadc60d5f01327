use hex_life::grid::{as_number, as_resolution, dec_resolution, inc_resolution, Resolution};

#[test]
fn numbers_and_resolutions_agree() {
    for i in 0..16u32 {
        let r = as_resolution(i).expect("level in range");
        assert_eq!(as_number(&r), i);
    }
    assert_eq!(as_resolution(16), None);
    assert_eq!(as_resolution(u32::MAX), None);
    assert_eq!(as_number(&Resolution::Two), 2);
}

#[test]
fn stepping_the_resolution_stops_at_the_bounds() {
    assert_eq!(inc_resolution(&Resolution::Zero), Some(Resolution::One));
    assert_eq!(inc_resolution(&Resolution::Fourteen), Some(Resolution::Fifteen));
    assert_eq!(inc_resolution(&Resolution::Fifteen), None);
    assert_eq!(dec_resolution(&Resolution::Fifteen), Some(Resolution::Fourteen));
    assert_eq!(dec_resolution(&Resolution::One), Some(Resolution::Zero));
    assert_eq!(dec_resolution(&Resolution::Zero), None);
}
