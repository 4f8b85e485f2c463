use usb_manager::Error;

#[test]
fn a_status_code_is_written_in_upper_case_hexadecimal() {
    assert_eq!(Error::win32(0x1f).message(), "Win32 error 0x1F");
    assert_eq!(Error::Win32(0).message(), "Win32 error 0x0");
    assert_eq!(Error::Win32(5).message(), "Win32 error 0x5");
    assert_eq!(Error::Win32(16).message(), "Win32 error 0x10");
    assert_eq!(Error::Win32(0xabcdef09).message(), "Win32 error 0xABCDEF09");
    assert_eq!(Error::Win32(u32::MAX).message(), "Win32 error 0xFFFFFFFF");
    assert_eq!(Error::Win32(0x80070005).message(), format!("Win32 error 0x{:0X}", 0x80070005u32));
}

#[test]
fn each_error_has_its_message() {
    assert_eq!(Error::NotOpen.message(), "Device not turned on");
    assert_eq!(Error::OpenError.message(), "Device opening error");
    assert_eq!(Error::NotFound.message(), "Device not found");
    assert_eq!(Error::DataOverlength.message(), "Data exceeds the maximum length");
    assert_eq!(Error::Other(String::from("read error")).message(), "read error");
}

#[test]
fn win32_carries_the_code() {
    assert!(matches!(Error::win32(0x57), Error::Win32(0x57)));
}
