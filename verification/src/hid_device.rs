//! Device descriptors and the framing of the reports exchanged with a device.
//!
//! A report is a fixed-length buffer whose first byte is the report id. The
//! functions here size and fill such buffers, take the payload out of what a
//! device answered, and keep the state of the device's handle. The calls into
//! the operating system are made by the caller, who is told what to do next
//! by an [`Exchange`] and reports back what happened.

use crate::Error;
use vstd::prelude::*;

verus! {

/// The state of the operating system handle that a descriptor owns.
#[derive(Clone, Copy, Debug)]
pub enum DeviceHandle {
    /// No handle is held.
    Closed,
    /// The device is open under this raw handle.
    Open(isize),
}

impl DeviceHandle {
    /// The raw handle, if one is held.
    pub open spec fn raw(self) -> Option<isize> {
        match self {
            DeviceHandle::Closed => None,
            DeviceHandle::Open(handle) => Some(handle),
        }
    }
}

/// Whether the operating system hands out `raw` as a usable handle.
pub open spec fn valid_handle(raw: isize) -> bool {
    raw != -1 && raw != 0
}

/// One attached device: who it is, what it reports, and how long its reports
/// are. The three lengths count the leading report-id byte.
#[derive(Debug)]
pub struct HidDevice {
    /// Stable identity of the physical device.
    pub id: u128,
    /// What the operating system opens the device by.
    pub path: String,
    pub serial: String,
    pub manufacturer: String,
    pub product: String,
    pub vendor_id: u16,
    pub product_id: u16,
    pub release: u16,
    pub usage_page: u16,
    pub usage: u16,
    pub input_report_byte_length: u32,
    pub output_report_byte_length: u32,
    pub feature_report_byte_length: u32,
    pub device_handle: DeviceHandle,
}

impl Clone for HidDevice {
    fn clone(&self) -> (copy: Self)
        ensures
            copy == *self,
    {
        HidDevice {
            id: self.id,
            path: self.path.clone(),
            serial: self.serial.clone(),
            manufacturer: self.manufacturer.clone(),
            product: self.product.clone(),
            vendor_id: self.vendor_id,
            product_id: self.product_id,
            release: self.release,
            usage_page: self.usage_page,
            usage: self.usage,
            input_report_byte_length: self.input_report_byte_length,
            output_report_byte_length: self.output_report_byte_length,
            feature_report_byte_length: self.feature_report_byte_length,
            device_handle: self.device_handle,
        }
    }
}

impl Default for HidDevice {
    fn default() -> (device: Self)
        ensures
            device.is_blank(),
            device.id == 0,
            device.path@.len() == 0,
    {
        HidDevice {
            id: 0,
            path: String::new(),
            serial: String::new(),
            manufacturer: String::new(),
            product: String::new(),
            vendor_id: 0,
            product_id: 0,
            release: 0,
            usage_page: 0,
            usage: 0,
            input_report_byte_length: 0,
            output_report_byte_length: 0,
            feature_report_byte_length: 0,
            device_handle: DeviceHandle::Closed,
        }
    }
}

/// `len` zero bytes.
pub open spec fn zeros(len: nat) -> Seq<u8> {
    Seq::new(len, |i: int| 0u8)
}

/// The buffer sent for an output report: the report id, the payload, and zero
/// bytes up to `report_len` where the two are shorter than that.
pub open spec fn output_frame(report_id: u8, data: Seq<u8>, report_len: nat) -> Seq<u8> {
    let head = seq![report_id] + data;
    if head.len() < report_len {
        head + zeros((report_len - head.len()) as nat)
    } else {
        head
    }
}

/// The buffer handed to the device for an input or feature report: the report
/// id, then zero bytes, `report_len` bytes in all.
pub open spec fn input_frame(report_id: u8, report_len: nat) -> Seq<u8> {
    seq![report_id] + zeros((report_len - 1) as nat)
}

/// The payload of a buffer that a device filled: the leading byte is dropped
/// where it is the report id, and at most `data_len` bytes are kept.
pub open spec fn report_payload(report_id: u8, data_len: nat, raw: Seq<u8>) -> Seq<u8> {
    let body = if raw.len() > 0 && raw[0] == report_id {
        raw.skip(1)
    } else {
        raw
    };
    if data_len <= body.len() {
        body.take(data_len as int)
    } else {
        body
    }
}

impl HidDevice {
    /// Whether everything but the identity and the path is still unset.
    pub open spec fn is_blank(&self) -> bool {
        &&& self.serial@.len() == 0
        &&& self.manufacturer@.len() == 0
        &&& self.product@.len() == 0
        &&& self.vendor_id == 0
        &&& self.product_id == 0
        &&& self.release == 0
        &&& self.usage_page == 0
        &&& self.usage == 0
        &&& self.input_report_byte_length == 0
        &&& self.output_report_byte_length == 0
        &&& self.feature_report_byte_length == 0
        &&& self.device_handle == DeviceHandle::Closed
    }

    /// This descriptor with another handle state.
    pub open spec fn with_handle(self, handle: DeviceHandle) -> HidDevice {
        HidDevice { device_handle: handle, ..self }
    }

    /// A descriptor that knows only who the device is and where it is opened.
    pub fn new(id: u128, path: String) -> (device: Self)
        ensures
            device.id == id,
            device.path == path,
            device.is_blank(),
    {
        let mut device = HidDevice::default();
        device.path = path;
        device.id = id;
        device
    }

    /// The raw handle to use for the next call, or `None` where the device has
    /// to be opened first.
    pub fn check_handle(&self) -> (handle: Option<isize>)
        ensures
            handle == self.device_handle.raw(),
    {
        match self.device_handle {
            DeviceHandle::Closed => None,
            DeviceHandle::Open(handle) => Some(handle),
        }
    }

    /// Takes in what opening the device gave. A usable handle is kept and
    /// handed back; otherwise the descriptor stays as it was and the result is
    /// `OpenError`.
    pub fn open_device(&mut self, raw: isize) -> (opened: Result<isize, Error>)
        ensures
            valid_handle(raw) ==> opened == Ok::<isize, Error>(raw) && *final(self) == old(self).with_handle(DeviceHandle::Open(raw)),
            !valid_handle(raw) ==> opened == Err::<isize, Error>(Error::OpenError) && *final(self)
                == *old(self),
    {
        if raw == -1 || raw == 0 {
            return Err(Error::OpenError);
        }
        self.device_handle = DeviceHandle::Open(raw);
        Ok(raw)
    }

    /// Forgets the handle. The caller releases it.
    pub fn close_device(&mut self) -> (closed: bool)
        ensures
            closed,
            *final(self) == old(self).with_handle(DeviceHandle::Closed),
    {
        self.device_handle = DeviceHandle::Closed;
        true
    }

    /// Builds the buffer of an output report.
    pub fn output_assemble_data(&self, report_id: u8, data: &[u8], data_len: usize) -> (frame: Vec<
        u8,
    >)
        ensures
            frame@ == output_frame(report_id, data@, data_len as nat),
    {
        let mut frame: Vec<u8> = Vec::new();
        frame.push(report_id);
        let mut i: usize = 0;
        while i < data.len()
            invariant
                i <= data@.len(),
                frame@ == seq![report_id] + data@.take(i as int),
            decreases data@.len() - i,
        {
            frame.push(data[i]);
            i = i + 1;
        }
        assert(data@.take(data@.len() as int) == data@);
        let ghost head = frame@;
        while frame.len() < data_len
            invariant
                head.len() <= frame@.len(),
                frame@.len() <= data_len || frame@ == head,
                frame@ == head + zeros((frame@.len() - head.len()) as nat),
            decreases data_len - frame@.len(),
        {
            frame.push(0u8);
        }
        frame
    }

    /// Builds the buffer that the device fills for an input or feature report.
    pub fn input_assemble_data(&self, report_id: u8, data_len: usize) -> (frame: Vec<u8>)
        requires
            data_len >= 1,
        ensures
            frame@ == input_frame(report_id, data_len as nat),
    {
        let mut frame: Vec<u8> = Vec::new();
        frame.push(report_id);
        while frame.len() < data_len
            invariant
                1 <= frame@.len() <= data_len,
                frame@ == seq![report_id] + zeros((frame@.len() - 1) as nat),
            decreases data_len - frame@.len(),
        {
            frame.push(0u8);
        }
        frame
    }

    /// Takes the payload out of a buffer that the device filled.
    pub fn input_extract_data(&self, report_id: u8, data_len: usize, raw: Vec<u8>) -> (payload: Vec<
        u8,
    >)
        ensures
            payload@ == report_payload(report_id, data_len as nat, raw@),
    {
        let mut payload = raw;
        if payload.len() > 0 && payload[0] == report_id {
            let _ = payload.remove(0);
            assert(payload@ == raw@.skip(1));
        }
        payload.truncate(data_len);
        payload
    }
}

/// What the operating system says a device reports: its classification and
/// the lengths of its reports.
#[derive(Clone, Copy, Debug)]
pub struct UsageInfo {
    pub usage_page: u16,
    pub usage: u16,
    pub input_report_byte_length: u16,
    pub output_report_byte_length: u16,
    pub feature_report_byte_length: u16,
}

/// What the operating system says of a device's make.
#[derive(Clone, Copy, Debug)]
pub struct Attributes {
    pub vendor_id: u16,
    pub product_id: u16,
    pub version_number: u16,
}

impl HidDevice {
    /// This descriptor with `info` taken in.
    pub open spec fn with_usage(self, info: UsageInfo) -> HidDevice {
        HidDevice {
            usage_page: info.usage_page,
            usage: info.usage,
            input_report_byte_length: info.input_report_byte_length as u32,
            output_report_byte_length: info.output_report_byte_length as u32,
            feature_report_byte_length: info.feature_report_byte_length as u32,
            ..self
        }
    }

    /// This descriptor with `attributes` taken in.
    pub open spec fn with_attributes(self, attributes: Attributes) -> HidDevice {
        HidDevice {
            vendor_id: attributes.vendor_id,
            product_id: attributes.product_id,
            release: attributes.version_number,
            ..self
        }
    }

    /// Takes in what was read of the open device's reports, `Err` with the
    /// status code where the reading failed. On a device that is not open the
    /// result is `NotOpen`, whatever was read.
    pub fn get_usage_info(&mut self, info: Result<UsageInfo, u32>) -> (taken: Result<(), Error>)
        ensures
            old(self).device_handle is Closed ==> taken == Err::<(), Error>(Error::NotOpen)
                && *final(self) == *old(self),
            old(self).device_handle is Open && info is Ok ==> taken is Ok && *final(self) == old(self).with_usage(info->Ok_0),
            old(self).device_handle is Open && info is Err ==> taken == Err::<(), Error>(
                Error::Win32(info->Err_0),
            ) && *final(self) == *old(self),
    {
        if self.check_handle().is_none() {
            return Err(Error::NotOpen);
        }
        match info {
            Ok(read) => {
                self.usage_page = read.usage_page;
                self.usage = read.usage;
                self.input_report_byte_length = read.input_report_byte_length as u32;
                self.output_report_byte_length = read.output_report_byte_length as u32;
                self.feature_report_byte_length = read.feature_report_byte_length as u32;
                Ok(())
            },
            Err(code) => Err(Error::win32(code)),
        }
    }

    /// Takes in what was read of the open device's make, `Err` with the status
    /// code where the reading failed. On a device that is not open the result
    /// is `NotOpen`, whatever was read.
    pub fn get_attributes_info(&mut self, attributes: Result<Attributes, u32>) -> (taken: Result<
        (),
        Error,
    >)
        ensures
            old(self).device_handle is Closed ==> taken == Err::<(), Error>(Error::NotOpen)
                && *final(self) == *old(self),
            old(self).device_handle is Open && attributes is Ok ==> taken is Ok && *final(self)
                == old(self).with_attributes(attributes->Ok_0),
            old(self).device_handle is Open && attributes is Err ==> taken == Err::<(), Error>(
                Error::Win32(attributes->Err_0),
            ) && *final(self) == *old(self),
    {
        if self.check_handle().is_none() {
            return Err(Error::NotOpen);
        }
        match attributes {
            Ok(read) => {
                self.vendor_id = read.vendor_id;
                self.product_id = read.product_id;
                self.release = read.version_number;
                Ok(())
            },
            Err(code) => Err(Error::win32(code)),
        }
    }

    /// Fills the descriptor from one look at the device: `raw` is what opening
    /// it gave, `info` and `attributes` what was then read of it. The first
    /// failure ends the look: `OpenError` for a handle that is not usable, the
    /// status code for a reading that failed. What was taken in before it
    /// stays. The descriptor is closed at the end, however the look ended, if
    /// it was opened.
    pub fn get_device_info(
        &mut self,
        raw: isize,
        info: Result<UsageInfo, u32>,
        attributes: Result<Attributes, u32>,
    ) -> (filled: Result<(), Error>)
        ensures
            !valid_handle(raw) ==> filled == Err::<(), Error>(Error::OpenError) && *final(self)
                == *old(self),
            valid_handle(raw) ==> final(self).device_handle is Closed,
            valid_handle(raw) && info is Err ==> filled == Err::<(), Error>(
                Error::Win32(info->Err_0),
            ) && *final(self) == old(self).with_handle(DeviceHandle::Closed),
            valid_handle(raw) && info is Ok && attributes is Err ==> filled == Err::<(), Error>(
                Error::Win32(attributes->Err_0),
            ) && *final(self) == old(self).with_usage(info->Ok_0).with_handle(
                DeviceHandle::Closed,
            ),
            valid_handle(raw) && info is Ok && attributes is Ok ==> filled is Ok && *final(self)
                == old(self).with_usage(info->Ok_0).with_attributes(attributes->Ok_0).with_handle(
                DeviceHandle::Closed,
            ),
    {
        match self.open_device(raw) {
            Ok(_) => {},
            Err(error) => {
                return Err(error);
            },
        }
        match self.get_usage_info(info) {
            Ok(()) => {},
            Err(error) => {
                self.close_device();
                return Err(error);
            },
        }
        match self.get_attributes_info(attributes) {
            Ok(()) => {},
            Err(error) => {
                self.close_device();
                return Err(error);
            },
        }
        self.close_device();
        Ok(())
    }
}

/// Whether looking at a device gave its descriptor.
pub open spec fn is_described() -> spec_fn(Result<HidDevice, Error>) -> bool {
    |looked: Result<HidDevice, Error>| looked is Ok
}

/// The descriptors among `found`, in their order.
pub open spec fn described(found: Seq<Result<HidDevice, Error>>) -> Seq<HidDevice> {
    found.filter(is_described()).map_values(|looked: Result<HidDevice, Error>| looked->Ok_0)
}

/// The devices of a scan: of what looking at each attached device gave, the
/// descriptors. A device whose descriptor could not be had is left out, and
/// the others stay.
pub fn all_hid_device(found: &Vec<Result<HidDevice, Error>>) -> (list: Vec<HidDevice>)
    ensures
        list@ == described(found@),
{
    let mut list: Vec<HidDevice> = Vec::new();
    let mut i: usize = 0;
    proof {
        found@.take(0).lemma_filter_len(is_described());
        assert(list@ =~= described(found@.take(0)));
    }
    while i < found.len()
        invariant
            i <= found@.len(),
            list@ == described(found@.take(i as int)),
        decreases found@.len() - i,
    {
        proof {
            assert(found@.take(i + 1) =~= found@.take(i as int).push(found@[i as int]));
            found@.take(i as int).lemma_filter_push(found@[i as int], is_described());
        }
        match &found[i] {
            Ok(device) => {
                list.push(device.clone());
                assert(list@ =~= described(found@.take(i + 1)));
            },
            Err(_) => {},
        }
        i = i + 1;
    }
    assert(found@.take(found@.len() as int) =~= found@);
    list
}

/// The operations of the report transport.
#[derive(Clone, Copy, Debug)]
pub enum Operation {
    /// Send an output report over the control channel.
    SetOutputReport,
    /// Ask for an input report over the control channel.
    GetInputReport,
    /// Ask for a feature report.
    GetFeatureReport,
    /// Send an output report as a streaming write.
    Write,
    /// One streaming read, after which the handle is released.
    Read,
    /// One streaming read of a series; the handle stays open for the next.
    ReadContinuous,
    /// Discard the reports that are queued unread.
    ReadFlush,
}

impl Operation {
    /// Whether the operation carries a payload to the device.
    pub open spec fn sends(self) -> bool {
        self is SetOutputReport || self is Write
    }

    /// Whether the operation leaves the handle as it is when it ends.
    pub open spec fn keeps_handle(self) -> bool {
        self is ReadContinuous
    }
}

/// What a finished operation hands to its caller.
#[derive(Debug)]
pub enum Output {
    /// Nothing beyond success.
    Done,
    /// The payload that was read.
    Report(Vec<u8>),
    /// The number of bytes that were written.
    Written(u32),
}

/// What the caller of an exchange has to do next.
#[derive(Debug)]
pub enum Pending {
    /// Open the device at its path and report the raw handle with
    /// [`HidDevice::opened`].
    Open,
    /// Issue the operation on this handle with the exchange's buffer, let the
    /// device fill the buffer where it reads, and report the outcome with
    /// [`HidDevice::replied`].
    Issue(isize),
    /// Release `close`, if any; the operation is over with `result`.
    Finish { close: Option<isize>, result: Result<Output, Error> },
}

/// One transport operation in progress.
#[derive(Debug)]
pub struct Exchange {
    pub operation: Operation,
    pub report_id: u8,
    /// The length of the payload: of the one sent, or of the one asked for.
    pub data_len: usize,
    /// The report buffer while the operation is under way, empty once it is
    /// over.
    pub buffer: Vec<u8>,
    pub pending: Pending,
}

/// Whether `result` is what `operation` makes of the outcome `status` of its
/// call, `Ok` with the number of bytes transferred or `Err` with the status
/// code, and of the `buffer` as it stands after the call.
pub open spec fn answers(
    operation: Operation,
    report_id: u8,
    data_len: nat,
    buffer: Seq<u8>,
    status: Result<u32, u32>,
    result: Result<Output, Error>,
) -> bool {
    match (operation, status) {
        (Operation::ReadFlush, _) => result == Ok::<Output, Error>(Output::Done),
        (_, Err(code)) => result == Err::<Output, Error>(Error::Win32(code)),
        (Operation::SetOutputReport, Ok(_)) => result == Ok::<Output, Error>(Output::Done),
        (Operation::Write, Ok(count)) => if count == 0 {
            result matches Err(Error::Other(message)) && message@ == "write error"@
        } else {
            result == Ok::<Output, Error>(Output::Written(count))
        },
        (Operation::GetInputReport, Ok(_)) | (Operation::GetFeatureReport, Ok(_)) => {
            result matches Ok(Output::Report(payload)) && payload@ == report_payload(
                report_id,
                data_len,
                buffer,
            )
        },
        (Operation::Read, Ok(count)) | (Operation::ReadContinuous, Ok(count)) => if count == 0 {
            result matches Err(Error::Other(message)) && message@ == "read error"@
        } else {
            result matches Ok(Output::Report(payload)) && payload@ == report_payload(
                report_id,
                data_len,
                buffer,
            )
        },
    }
}

impl Exchange {
    /// Whether the exchange, if it is over, has left `device` closed. Every
    /// operation does so but the one that keeps the handle.
    pub open spec fn leaves_closed(self, device: HidDevice) -> bool {
        self.pending is Finish && !self.operation.keeps_handle() ==> device.device_handle is Closed
    }

    /// Whether `self` is `earlier` moved on to `pending`, with the same
    /// operation, report id and length.
    pub open spec fn follows(self, earlier: Exchange) -> bool {
        &&& self.operation == earlier.operation
        &&& self.report_id == earlier.report_id
        &&& self.data_len == earlier.data_len
    }

    /// Whether the exchange is over with `close` to release, `result` to hand
    /// out and nothing left in its buffer.
    pub open spec fn finished_with(self, close: Option<isize>, result: Result<Output, Error>) -> bool {
        &&& self.buffer@.len() == 0
        &&& self.pending == (Pending::Finish { close, result })
    }
}

impl HidDevice {
    /// The length of the reports that `operation` exchanges with this device.
    pub open spec fn report_len(&self, operation: Operation) -> nat {
        match operation {
            Operation::SetOutputReport | Operation::Write => self.output_report_byte_length as nat,
            Operation::GetInputReport | Operation::Read | Operation::ReadContinuous => {
                self.input_report_byte_length as nat
            },
            Operation::GetFeatureReport => self.feature_report_byte_length as nat,
            Operation::ReadFlush => 0,
        }
    }

    /// Whether a payload of `data_len` bytes, with its report id, is more than
    /// the device's report holds.
    pub open spec fn overlong(&self, operation: Operation, data_len: nat) -> bool {
        !(operation is ReadFlush) && data_len + 1 > self.report_len(operation)
    }

    /// The buffer that `operation` is issued with.
    pub open spec fn request(&self, operation: Operation, report_id: u8, data: Seq<u8>) -> Seq<u8> {
        if operation.sends() {
            output_frame(report_id, data, self.report_len(operation))
        } else if operation is ReadFlush {
            Seq::empty()
        } else {
            input_frame(report_id, self.report_len(operation))
        }
    }

    /// What the next step is for an operation that has its buffer.
    pub open spec fn awaited(&self) -> Pending {
        match self.device_handle {
            DeviceHandle::Closed => Pending::Open,
            DeviceHandle::Open(handle) => Pending::Issue(handle),
        }
    }

    /// The handle that the caller releases when `operation` ends.
    pub open spec fn release_of(&self, operation: Operation) -> Option<isize> {
        if operation.keeps_handle() {
            None
        } else {
            self.device_handle.raw()
        }
    }

    /// The descriptor after `operation` has ended: closed, unless the
    /// operation keeps the handle.
    pub open spec fn released(self, operation: Operation) -> HidDevice {
        if operation.keeps_handle() {
            self
        } else {
            self.with_handle(DeviceHandle::Closed)
        }
    }

    /// Whether starting `operation` on the descriptor `self` with `data` (of
    /// `data_len` bytes, or `data_len` bytes asked for) gives `exchange` and
    /// leaves the descriptor as `after`.
    pub open spec fn begins(
        self,
        after: HidDevice,
        exchange: Exchange,
        operation: Operation,
        report_id: u8,
        data: Seq<u8>,
        data_len: nat,
    ) -> bool {
        &&& exchange.operation == operation
        &&& exchange.report_id == report_id
        &&& exchange.data_len == data_len
        &&& if self.overlong(operation, data_len) {
            &&& after == self.released(operation)
            &&& exchange.finished_with(
                self.release_of(operation),
                Err(Error::DataOverlength),
            )
        } else {
            &&& after == self
            &&& exchange.buffer@ == self.request(operation, report_id, data)
            &&& exchange.pending == self.awaited()
        }
    }

    /// Whether reporting the raw handle `raw` to `exchange` gives `next` and
    /// leaves the descriptor `self` as `after`.
    pub open spec fn opens(self, after: HidDevice, exchange: Exchange, raw: isize, next: Exchange) -> bool {
        if !(exchange.pending is Open) {
            after == self && next == exchange
        } else if valid_handle(raw) {
            &&& after == self.with_handle(DeviceHandle::Open(raw))
            &&& next.follows(exchange)
            &&& next.buffer == exchange.buffer
            &&& next.pending == Pending::Issue(raw)
        } else {
            &&& after == self.released(exchange.operation)
            &&& next.follows(exchange)
            &&& next.finished_with(self.release_of(exchange.operation), Err(Error::OpenError))
        }
    }

    /// Whether reporting the outcome `status` of the call to `exchange`, whose
    /// buffer the device may have filled, gives `next` and leaves the
    /// descriptor `self` as `after`.
    pub open spec fn replies(
        self,
        after: HidDevice,
        exchange: Exchange,
        status: Result<u32, u32>,
        next: Exchange,
    ) -> bool {
        if !(exchange.pending is Issue) {
            after == self && next == exchange
        } else {
            &&& after == self.released(exchange.operation)
            &&& next.follows(exchange)
            &&& next.buffer@.len() == 0
            &&& next.pending matches Pending::Finish { close, result }
            &&& close == self.release_of(exchange.operation)
            &&& answers(
                exchange.operation,
                exchange.report_id,
                exchange.data_len as nat,
                exchange.buffer@,
                status,
                result,
            )
        }
    }
}

impl HidDevice {
    /// The length of the reports that `operation` exchanges with this device.
    fn capability(&self, operation: Operation) -> (len: u32)
        ensures
            len == self.report_len(operation),
    {
        match operation {
            Operation::SetOutputReport | Operation::Write => self.output_report_byte_length,
            Operation::GetInputReport | Operation::Read | Operation::ReadContinuous => {
                self.input_report_byte_length
            },
            Operation::GetFeatureReport => self.feature_report_byte_length,
            Operation::ReadFlush => 0,
        }
    }

    /// Ends an operation with `result`: the handle is forgotten and given to
    /// the caller to release, unless the operation keeps it.
    fn finish(
        &mut self,
        operation: Operation,
        report_id: u8,
        data_len: usize,
        result: Result<Output, Error>,
    ) -> (exchange: Exchange)
        ensures
            *final(self) == old(self).released(operation),
            exchange.operation == operation,
            exchange.report_id == report_id,
            exchange.data_len == data_len,
            exchange.finished_with(old(self).release_of(operation), result),
    {
        let close = match operation {
            Operation::ReadContinuous => None,
            _ => {
                let held = self.check_handle();
                self.close_device();
                held
            },
        };
        Exchange {
            operation,
            report_id,
            data_len,
            buffer: Vec::new(),
            pending: Pending::Finish { close, result },
        }
    }

    /// Starts `operation`: checks the length against the device's report,
    /// builds the buffer, and says whether the device has to be opened first.
    fn begin(&mut self, operation: Operation, report_id: u8, data: &[u8], data_len: usize) -> (exchange:
        Exchange)
        ensures
            old(self).begins(*final(self), exchange, operation, report_id, data@, data_len as nat),
    {
        let report_len = self.capability(operation) as usize;
        let buffer = match operation {
            Operation::ReadFlush => Vec::new(),
            _ => {
                if data_len >= report_len {
                    return self.finish(operation, report_id, data_len, Err(Error::DataOverlength));
                }
                match operation {
                    Operation::SetOutputReport | Operation::Write => {
                        self.output_assemble_data(report_id, data, report_len)
                    },
                    _ => self.input_assemble_data(report_id, report_len),
                }
            },
        };
        let pending = match self.check_handle() {
            Some(handle) => Pending::Issue(handle),
            None => Pending::Open,
        };
        Exchange { operation, report_id, data_len, buffer, pending }
    }

    /// Starts sending `data` as an output report over the control channel.
    ///
    /// The exchange is over at once with `DataOverlength` exactly where the
    /// payload and its report id are more than an output report holds.
    /// Otherwise its buffer is as long as an output report and starts with the
    /// report id.
    pub fn set_output_report(&mut self, report_id: u8, data: &[u8]) -> (exchange: Exchange)
        ensures
            old(self).begins(
                *final(self),
                exchange,
                Operation::SetOutputReport,
                report_id,
                data@,
                data@.len(),
            ),
            (exchange.pending matches Pending::Finish { result: Err(Error::DataOverlength), .. })
                <==> data@.len() + 1 > old(self).output_report_byte_length,
            data@.len() + 1 <= old(self).output_report_byte_length ==> exchange.buffer@.len()
                == old(self).output_report_byte_length,
            data@.len() + 1 <= old(self).output_report_byte_length ==> exchange.buffer@[0]
                == report_id,
            exchange.leaves_closed(*final(self)),
    {
        self.begin(Operation::SetOutputReport, report_id, data, data.len())
    }

    /// Starts asking for an input report whose payload has `data_len` bytes.
    pub fn get_input_report(&mut self, report_id: u8, data_len: usize) -> (exchange: Exchange)
        ensures
            old(self).begins(
                *final(self),
                exchange,
                Operation::GetInputReport,
                report_id,
                Seq::empty(),
                data_len as nat,
            ),
            (exchange.pending matches Pending::Finish { result: Err(Error::DataOverlength), .. })
                <==> data_len + 1 > old(self).input_report_byte_length,
            exchange.leaves_closed(*final(self)),
    {
        let none: Vec<u8> = Vec::new();
        self.begin(Operation::GetInputReport, report_id, none.as_slice(), data_len)
    }

    /// Starts asking for a feature report whose payload has `data_len` bytes.
    pub fn get_feature_report(&mut self, report_id: u8, data_len: usize) -> (exchange: Exchange)
        ensures
            old(self).begins(
                *final(self),
                exchange,
                Operation::GetFeatureReport,
                report_id,
                Seq::empty(),
                data_len as nat,
            ),
            (exchange.pending matches Pending::Finish { result: Err(Error::DataOverlength), .. })
                <==> data_len + 1 > old(self).feature_report_byte_length,
            exchange.leaves_closed(*final(self)),
    {
        let none: Vec<u8> = Vec::new();
        self.begin(Operation::GetFeatureReport, report_id, none.as_slice(), data_len)
    }

    /// Starts sending `data` as a streaming write. The buffer is that of
    /// [`HidDevice::set_output_report`].
    pub fn write(&mut self, report_id: u8, data: &[u8]) -> (exchange: Exchange)
        ensures
            old(self).begins(*final(self), exchange, Operation::Write, report_id, data@, data@.len()),
            (exchange.pending matches Pending::Finish { result: Err(Error::DataOverlength), .. })
                <==> data@.len() + 1 > old(self).output_report_byte_length,
            exchange.leaves_closed(*final(self)),
    {
        self.begin(Operation::Write, report_id, data, data.len())
    }

    /// Starts one streaming read of `data_len` bytes of payload, after which
    /// the handle is released.
    pub fn read(&mut self, report_id: u8, data_len: usize) -> (exchange: Exchange)
        ensures
            old(self).begins(
                *final(self),
                exchange,
                Operation::Read,
                report_id,
                Seq::empty(),
                data_len as nat,
            ),
            (exchange.pending matches Pending::Finish { result: Err(Error::DataOverlength), .. })
                <==> data_len + 1 > old(self).input_report_byte_length,
            exchange.leaves_closed(*final(self)),
    {
        let none: Vec<u8> = Vec::new();
        self.begin(Operation::Read, report_id, none.as_slice(), data_len)
    }

    /// Starts discarding the reports that are queued unread.
    pub fn read_flush(&mut self) -> (exchange: Exchange)
        ensures
            old(self).begins(*final(self), exchange, Operation::ReadFlush, 0, Seq::empty(), 0),
            *final(self) == *old(self),
            exchange.pending == old(self).awaited(),
            exchange.leaves_closed(*final(self)),
    {
        let none: Vec<u8> = Vec::new();
        self.begin(Operation::ReadFlush, 0, none.as_slice(), 0)
    }

    /// Starts one streaming read of a series. The handle stays as it is when
    /// the read ends, however it ends: the caller closes the device after the
    /// last one.
    pub fn read_continuous(&mut self, report_id: u8, data_len: usize) -> (exchange: Exchange)
        ensures
            old(self).begins(
                *final(self),
                exchange,
                Operation::ReadContinuous,
                report_id,
                Seq::empty(),
                data_len as nat,
            ),
            (exchange.pending matches Pending::Finish { result: Err(Error::DataOverlength), .. })
                <==> data_len + 1 > old(self).input_report_byte_length,
            *final(self) == *old(self),
            exchange.leaves_closed(*final(self)),
    {
        let none: Vec<u8> = Vec::new();
        self.begin(Operation::ReadContinuous, report_id, none.as_slice(), data_len)
    }

    /// Takes in the raw handle that opening the device gave. A usable one is
    /// kept and the operation is issued on it; otherwise the operation is over
    /// with `OpenError`. An exchange that does not wait for this is handed back
    /// as it is.
    pub fn opened(&mut self, exchange: Exchange, raw: isize) -> (next: Exchange)
        ensures
            old(self).opens(*final(self), exchange, raw, next),
            exchange.pending is Open ==> next.leaves_closed(*final(self)),
    {
        match &exchange.pending {
            Pending::Open => {},
            _ => {
                return exchange;
            },
        }
        let Exchange { operation, report_id, data_len, buffer, pending: _ } = exchange;
        match self.open_device(raw) {
            Ok(handle) => Exchange {
                operation,
                report_id,
                data_len,
                buffer,
                pending: Pending::Issue(handle),
            },
            Err(error) => self.finish(operation, report_id, data_len, Err(error)),
        }
    }

    /// What `operation` hands out after its call came back with `status`, `Ok`
    /// with the number of bytes transferred or `Err` with the status code, and
    /// with `buffer` as the device left it.
    pub fn answer(
        &self,
        operation: Operation,
        report_id: u8,
        data_len: usize,
        buffer: Vec<u8>,
        status: Result<u32, u32>,
    ) -> (result: Result<Output, Error>)
        ensures
            answers(operation, report_id, data_len as nat, buffer@, status, result),
    {
        match operation {
            Operation::ReadFlush => Ok(Output::Done),
            Operation::SetOutputReport => match status {
                Err(code) => Err(Error::win32(code)),
                Ok(_) => Ok(Output::Done),
            },
            Operation::Write => match status {
                Err(code) => Err(Error::win32(code)),
                Ok(count) => if count == 0 {
                    Err(Error::Other("write error".to_owned()))
                } else {
                    Ok(Output::Written(count))
                },
            },
            Operation::GetInputReport | Operation::GetFeatureReport => match status {
                Err(code) => Err(Error::win32(code)),
                Ok(_) => Ok(Output::Report(self.input_extract_data(report_id, data_len, buffer))),
            },
            Operation::Read | Operation::ReadContinuous => match status {
                Err(code) => Err(Error::win32(code)),
                Ok(count) => if count == 0 {
                    Err(Error::Other("read error".to_owned()))
                } else {
                    Ok(Output::Report(self.input_extract_data(report_id, data_len, buffer)))
                },
            },
        }
    }

    /// Takes in the outcome of the call that the exchange was issued with, the
    /// exchange's buffer being as the device left it, and ends the operation.
    /// The handle is forgotten and given to the caller to release, unless the
    /// operation keeps it. An exchange that does not wait for this is handed
    /// back as it is.
    pub fn replied(&mut self, exchange: Exchange, status: Result<u32, u32>) -> (next: Exchange)
        ensures
            old(self).replies(*final(self), exchange, status, next),
            exchange.pending is Issue ==> next.pending is Finish && next.leaves_closed(*final(self)),
    {
        match &exchange.pending {
            Pending::Issue(_) => {},
            _ => {
                return exchange;
            },
        }
        let Exchange { operation, report_id, data_len, buffer, pending: _ } = exchange;
        let result = self.answer(operation, report_id, data_len, buffer, status);
        self.finish(operation, report_id, data_len, result)
    }
}

/// Every exchange ends: once the opening was reported to it and then the
/// outcome of the call, it is over, whatever it waited for at first, and has
/// left the device closed unless its operation keeps the handle.
pub proof fn lemma_exchange_ends(
    device: HidDevice,
    begun: HidDevice,
    opened: HidDevice,
    replied: HidDevice,
    first: Exchange,
    second: Exchange,
    third: Exchange,
    operation: Operation,
    report_id: u8,
    data: Seq<u8>,
    data_len: nat,
    raw: isize,
    status: Result<u32, u32>,
)
    requires
        device.begins(begun, first, operation, report_id, data, data_len),
        begun.opens(opened, first, raw, second),
        opened.replies(replied, second, status, third),
    ensures
        third.pending is Finish,
        third.operation == operation,
        third.leaves_closed(replied),
{
}

/// A descriptor is what it is for good: no step of an exchange changes
/// anything of it but the state of its handle.
pub proof fn lemma_exchange_keeps_descriptor(
    before: HidDevice,
    after: HidDevice,
    exchange: Exchange,
    next: Exchange,
    operation: Operation,
    report_id: u8,
    data: Seq<u8>,
    data_len: nat,
    raw: isize,
    status: Result<u32, u32>,
)
    requires
        before.begins(after, next, operation, report_id, data, data_len) || before.opens(
            after,
            exchange,
            raw,
            next,
        ) || before.replies(after, exchange, status, next),
    ensures
        after == before.with_handle(after.device_handle),
{
}

/// A payload that fits the report is found again behind the report id, and
/// the frame is as long as the report.
pub proof fn lemma_output_frame_shape(report_id: u8, data: Seq<u8>, report_len: nat)
    requires
        data.len() + 1 <= report_len,
    ensures
        output_frame(report_id, data, report_len).len() == report_len,
        output_frame(report_id, data, report_len)[0] == report_id,
        output_frame(report_id, data, report_len).subrange(1, 1 + data.len() as int) == data,
        forall|i: int|
            1 + data.len() <= i < report_len ==> output_frame(report_id, data, report_len)[i] == 0,
{
    let frame = output_frame(report_id, data, report_len);
    assert(frame.subrange(1, 1 + data.len() as int) =~= data);
}

/// What a device answers is cut to the length asked for, where its buffer
/// has room for the report id and that many bytes: the bytes behind the report
/// id where the device echoes it, and else the bytes from the first on.
pub proof fn lemma_report_payload(report_id: u8, data_len: nat, raw: Seq<u8>)
    requires
        data_len + 1 <= raw.len(),
    ensures
        report_payload(report_id, data_len, raw).len() == data_len,
        raw[0] == report_id ==> report_payload(report_id, data_len, raw) == raw.subrange(
            1,
            1 + data_len as int,
        ),
        raw[0] != report_id ==> report_payload(report_id, data_len, raw) == raw.subrange(
            0,
            data_len as int,
        ),
{
    assert(raw.skip(1).take(data_len as int) =~= raw.subrange(1, 1 + data_len as int));
    assert(raw.take(data_len as int) =~= raw.subrange(0, data_len as int));
}

/// Loopback: what is written with a report id is read back with the same
/// report id and the payload's length as the payload itself.
pub proof fn lemma_loopback_round_trip(report_id: u8, payload: Seq<u8>, report_len: nat)
    requires
        payload.len() + 1 <= report_len,
    ensures
        report_payload(report_id, payload.len(), output_frame(report_id, payload, report_len))
            == payload,
{
    lemma_output_frame_shape(report_id, payload, report_len);
    lemma_report_payload(report_id, payload.len(), output_frame(report_id, payload, report_len));
}

} // verus!
