use noise_maker::driver::{driver_result, text_length, DriverError, MMSYSERR_NOERROR};

#[test]
fn driver_success_is_status_zero() {
    assert_eq!(MMSYSERR_NOERROR, 0);
    assert_eq!(driver_result(0, String::from("ignored")), Ok(()));
}

#[test]
fn driver_failure_carries_code_and_words() {
    assert_eq!(
        driver_result(2, String::from("bad device id")),
        Err(DriverError { code: 2, message: String::from("bad device id") })
    );
    assert_eq!(
        driver_result(u32::MAX, String::new()),
        Err(DriverError { code: u32::MAX, message: String::new() })
    );
}

#[test]
fn text_ends_at_the_first_zero() {
    let name: Vec<u16> = "Speakers".encode_utf16().chain([0, 0, 7, 0]).collect();
    assert_eq!(text_length(&name), 8);
    assert_eq!(String::from_utf16_lossy(&name[..text_length(&name)]), "Speakers");
    assert_eq!(text_length(&[0u16, 65, 66]), 0);
    assert_eq!(text_length(&[65u16, 0]), 1);
}

#[test]
fn text_without_a_zero_fills_the_buffer() {
    assert_eq!(text_length(&[65u16, 66, 67]), 3);
    assert_eq!(text_length(&[]), 0);
    assert_eq!(text_length(&[1u16; 512]), 512);
}
