//! Tracks the human interface devices of one vendor-defined usage page:
//! a registry that follows plug and unplug, and the framing of the reports
//! exchanged with each device.

use crate::hid_device::HidDevice;
use vstd::prelude::*;

pub mod adapter;
pub mod hid_device;
pub mod manager;

verus! {

/// What can go wrong in the registry and on a device's channel.
#[derive(Debug)]
pub enum Error {
    /// A call into the operating system failed with this status code.
    Win32(u32),
    /// An open handle was needed and the device has none.
    NotOpen,
    /// The device could not be opened.
    OpenError,
    /// No device is registered under the id.
    NotFound,
    /// The payload or the requested length does not fit the device's report.
    DataOverlength,
    /// Any other failure, by its message.
    Other(String),
}

/// The digits of the upper-case hexadecimal numerals.
pub open spec fn hex_alphabet() -> Seq<char> {
    "0123456789ABCDEF"@
}

/// `value` in upper-case hexadecimal digits, without leading zeros.
pub open spec fn hex_digits(value: nat) -> Seq<char>
    decreases value,
{
    if value < 16 {
        seq![hex_alphabet()[value as int]]
    } else {
        hex_digits(value / 16).push(hex_alphabet()[(value % 16) as int])
    }
}

/// Writes `value` in upper-case hexadecimal digits behind `text`.
fn append_hex(text: &mut String, value: u32)
    ensures
        final(text)@ == old(text)@ + hex_digits(value as nat),
    decreases value,
{
    if value >= 16 {
        append_hex(text, value / 16);
    }
    let digit = (value % 16) as usize;
    proof {
        reveal_strlit("0123456789ABCDEF");
    }
    let numeral = "0123456789ABCDEF".substring_ascii(digit, digit + 1);
    text.append(numeral);
    proof {
        let before = old(text)@;
        assert(numeral@ =~= seq![hex_alphabet()[digit as int]]);
        if value >= 16 {
            assert(final(text)@ =~= before + hex_digits((value / 16) as nat).push(
                hex_alphabet()[digit as int],
            ));
        } else {
            assert(final(text)@ =~= before + seq![hex_alphabet()[digit as int]]);
        }
    }
}

impl Error {
    /// What `message` says of this error.
    pub open spec fn text(&self) -> Seq<char> {
        match self {
            Error::Win32(code) => "Win32 error 0x"@ + hex_digits(*code as nat),
            Error::NotOpen => "Device not turned on"@,
            Error::OpenError => "Device opening error"@,
            Error::NotFound => "Device not found"@,
            Error::DataOverlength => "Data exceeds the maximum length"@,
            Error::Other(message) => message@,
        }
    }

    /// The error for a failed operating system call with status `code`.
    pub fn win32(code: u32) -> (error: Error)
        ensures
            error == Error::Win32(code),
    {
        Error::Win32(code)
    }

    /// The error in words. A status code is given in upper-case hexadecimal.
    pub fn message(&self) -> (message: String)
        ensures
            message@ == self.text(),
    {
        match self {
            Error::Win32(code) => {
                let mut message = "Win32 error 0x".to_owned();
                append_hex(&mut message, *code);
                message
            },
            Error::NotOpen => "Device not turned on".to_owned(),
            Error::OpenError => "Device opening error".to_owned(),
            Error::NotFound => "Device not found".to_owned(),
            Error::DataOverlength => "Data exceeds the maximum length".to_owned(),
            Error::Other(message) => message.clone(),
        }
    }
}

/// A change to the registry, as announced on the event channel.
#[derive(Debug)]
pub enum CentralEvent {
    /// A device was registered under this id.
    DeviceAdd(u128),
    /// This device left the registry: its descriptor as it was registered.
    DeviceRemove(HidDevice),
}

impl Clone for CentralEvent {
    fn clone(&self) -> (copy: Self)
        ensures
            copy == *self,
    {
        match self {
            CentralEvent::DeviceAdd(id) => CentralEvent::DeviceAdd(*id),
            CentralEvent::DeviceRemove(device) => CentralEvent::DeviceRemove(device.clone()),
        }
    }
}

} // verus!
