use faery::records::TriggerSource;
use faery::records::swap_rb;
use faery::records::trigger_source_code;
use faery::records::trigger_source_of_code;

#[test]
fn trigger_source_codes_round_trip() {
    for code in 0u8..=9 {
        let source = trigger_source_of_code(code).unwrap();
        assert_eq!(trigger_source_code(source), code);
    }
    for code in 10u8..=255 {
        assert!(trigger_source_of_code(code).is_none());
    }
}

#[test]
fn trigger_source_code_values() {
    assert_eq!(trigger_source_code(TriggerSource::TimestampReset), 0);
    assert_eq!(trigger_source_code(TriggerSource::ExternalSignalPulse), 3);
    assert_eq!(trigger_source_code(TriggerSource::ExposureEnd), 9);
}

#[test]
fn swap_rb_three_channels() {
    let disk = vec![1u8, 2, 3, 4, 5, 6];
    let swapped = swap_rb(&disk, 3);
    assert_eq!(swapped, vec![3, 2, 1, 6, 5, 4]);
    // swapping twice restores the buffer
    assert_eq!(swap_rb(&swapped, 3), disk);
}

#[test]
fn swap_rb_four_channels() {
    let disk = vec![1u8, 2, 3, 4, 5, 6, 7, 8];
    let swapped = swap_rb(&disk, 4);
    assert_eq!(swapped, vec![3, 2, 1, 4, 7, 6, 5, 8]);
    assert_eq!(swap_rb(&swapped, 4), disk);
}
