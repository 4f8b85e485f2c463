use usb_manager::adapter::Adapter;
use usb_manager::adapter::MANAGED_USAGE_PAGE;
use usb_manager::hid_device::HidDevice;
use usb_manager::manager::Manager;
use usb_manager::CentralEvent;
use usb_manager::Error;

const U1: u128 = 0x0a1a2a3a4b1b2c1c2d1d2d3d4d5d6d7d8;
const U2: u128 = 0x0f0e0d0c0b0a09080706050403020100;
const U3: u128 = 3;

fn device(id: u128, usage_page: u16, path: &str) -> HidDevice {
    let mut device = HidDevice::new(id, String::from(path));
    device.usage_page = usage_page;
    device.input_report_byte_length = 65;
    device
}

fn sorted(mut keys: Vec<u128>) -> Vec<u128> {
    keys.sort();
    keys
}

fn keys_of(adapter: &Adapter) -> Vec<u128> {
    sorted(adapter.peripherals().unwrap().iter().map(|device| device.id).collect())
}

/// What is on the channel now, in order.
fn drain(adapter: &Adapter) -> Vec<CentralEvent> {
    let read = adapter.events().unwrap();
    let mut events = Vec::new();
    while let Ok(event) = read.try_recv() {
        events.push(event);
    }
    events
}

#[test]
fn windows_test() {
    assert_eq!(1, 1);
}

#[test]
fn it_works() {
    let mut adapter = Adapter::new();
    adapter
        .start(Ok(vec![device(U1, 0xff00, "one"), device(U2, 0x0001, "two")]))
        .unwrap();

    let devices = adapter.peripherals().unwrap();
    println!("len:{}", devices.len());
    assert_eq!(devices.len(), 1);
    let read = adapter.events().unwrap();
    adapter.usb_device_change(Ok(vec![device(U3, 0xff00, "three")])).unwrap();
    let mut seen = 0;
    loop {
        match read.try_recv() {
            Ok(v) => {
                seen += 1;
                match v {
                    CentralEvent::DeviceAdd(id) => {
                        println!("Add:{:?}", id);
                    }
                    CentralEvent::DeviceRemove(device) => {
                        println!("Remove:{:?}", device.id);
                    }
                }
            }
            Err(err) => {
                println!("Err:{:?}", err);
                break;
            }
        }
    }
    assert_eq!(seen, 2);
}

#[test]
fn registry_insert_get_remove() {
    let mut manager = Manager::new();
    assert!(manager.devices().is_empty());
    assert!(manager.device_keys().is_empty());
    assert!(!manager.contains_device(U1));
    assert!(manager.device(&U1).is_none());

    assert!(manager.add_devices(U1, device(U1, 0xff00, "one")).is_ok());
    assert!(manager.add_devices(U2, device(U2, 0xff00, "two")).is_ok());
    assert!(manager.contains_device(U1));
    assert!(manager.contains_device(U2));
    assert!(!manager.contains_device(U3));
    assert_eq!(sorted(manager.device_keys()), sorted(vec![U1, U2]));
    assert_eq!(manager.device(&U2).unwrap().path, "two");
    let mut paths: Vec<String> = manager.devices().into_iter().map(|device| device.path).collect();
    paths.sort();
    assert_eq!(paths, vec!["one", "two"]);

    let (key, removed) = manager.remove_device(U1).unwrap();
    assert_eq!(key, U1);
    assert_eq!(removed.path, "one");
    assert!(!manager.contains_device(U1));
    assert_eq!(manager.device_keys(), vec![U2]);
}

#[test]
fn registering_twice_keeps_the_later_descriptor() {
    let mut manager = Manager::new();
    manager.add_devices(U1, device(U1, 0xff00, "first")).unwrap();
    manager.add_devices(U1, device(U1, 0xff00, "second")).unwrap();
    assert_eq!(manager.device_keys(), vec![U1]);
    assert_eq!(manager.device(&U1).unwrap().path, "second");
    assert_eq!(manager.devices().len(), 1);
}

#[test]
fn removing_an_absent_id_returns_none() {
    let mut manager = Manager::new();
    assert!(manager.remove_device(U1).is_none());
    manager.add_devices(U1, device(U1, 0xff00, "one")).unwrap();
    assert!(manager.remove_device(U2).is_none());
    assert!(manager.remove_device(U1).is_some());
    assert!(manager.remove_device(U1).is_none());
    assert!(manager.devices().is_empty());
}

#[test]
fn changes_under_different_ids_do_not_disturb_each_other() {
    let mut one = Manager::new();
    one.add_devices(U2, device(U2, 0xff00, "two")).unwrap();
    one.add_devices(U1, device(U1, 0xff00, "one")).unwrap();
    one.remove_device(U2);

    let mut other = Manager::new();
    other.add_devices(U2, device(U2, 0xff00, "two")).unwrap();
    other.remove_device(U2);
    other.add_devices(U1, device(U1, 0xff00, "one")).unwrap();

    assert_eq!(one.device_keys(), vec![U1]);
    assert_eq!(other.device_keys(), vec![U1]);
    assert_eq!(one.device(&U1).unwrap().path, other.device(&U1).unwrap().path);
}

#[test]
fn events_are_received_in_the_order_sent_by_one_handle_only() {
    let manager = Manager::new();
    let first = manager.event_channel();
    let second = manager.event_channel();
    manager.emit(CentralEvent::DeviceAdd(U1));
    manager.emit(CentralEvent::DeviceAdd(U2));
    assert!(matches!(first.try_recv(), Ok(CentralEvent::DeviceAdd(U1))));
    assert!(matches!(second.try_recv(), Ok(CentralEvent::DeviceAdd(U2))));
    assert!(first.try_recv().is_err());
    assert!(second.try_recv().is_err());
}

#[test]
fn scan_adds_the_managed_device_and_the_next_scan_removes_it() {
    let mut adapter = Adapter::new();
    assert!(keys_of(&adapter).is_empty());

    let d1 = device(U1, 0xff00, "one");
    let d2 = device(U2, 0x0001, "two");
    adapter.usb_device_change(Ok(vec![d1.clone(), d2.clone()])).unwrap();
    assert_eq!(keys_of(&adapter), vec![U1]);
    let events = drain(&adapter);
    assert_eq!(events.len(), 1);
    assert!(matches!(events[0], CentralEvent::DeviceAdd(U1)));

    adapter.usb_device_change(Ok(vec![d2])).unwrap();
    assert!(keys_of(&adapter).is_empty());
    let events = drain(&adapter);
    assert_eq!(events.len(), 1);
    match &events[0] {
        CentralEvent::DeviceRemove(snapshot) => {
            assert_eq!(snapshot.id, U1);
            assert_eq!(snapshot.path, "one");
            assert_eq!(snapshot.usage_page, 0xff00);
            assert_eq!(snapshot.input_report_byte_length, 65);
        }
        other => panic!("{:?}", other),
    }
}

#[test]
fn a_second_pass_over_the_same_devices_changes_nothing() {
    let mut adapter = Adapter::new();
    let scan = vec![
        device(U1, 0xff00, "one"),
        device(U2, 0x0001, "two"),
        device(U3, 0xff00, "three"),
    ];
    adapter.usb_device_change(Ok(scan.clone())).unwrap();
    assert_eq!(drain(&adapter).len(), 2);
    let before = keys_of(&adapter);
    adapter.usb_device_change(Ok(scan)).unwrap();
    assert!(drain(&adapter).is_empty());
    assert_eq!(keys_of(&adapter), before);
    assert_eq!(before, sorted(vec![U1, U3]));
}

#[test]
fn devices_of_other_usage_pages_are_never_registered() {
    let mut adapter = Adapter::new();
    adapter
        .start(Ok(vec![device(U1, 0x0001, "one"), device(U2, 0xff01, "two")]))
        .unwrap();
    assert!(keys_of(&adapter).is_empty());
    adapter
        .usb_device_change(Ok(vec![device(U1, 0x000c, "one"), device(U3, 0xff00, "three")]))
        .unwrap();
    assert_eq!(keys_of(&adapter), vec![U3]);
    assert!(matches!(adapter.peripheral(&U1), Err(Error::NotFound)));
    for device in adapter.peripherals().unwrap() {
        assert_eq!(device.usage_page, MANAGED_USAGE_PAGE);
    }
    assert_eq!(MANAGED_USAGE_PAGE, 0xff00);
}

#[test]
fn seeding_announces_nothing_and_overwrites() {
    let mut adapter = Adapter::new();
    adapter
        .start(Ok(vec![device(U1, 0xff00, "first"), device(U1, 0xff00, "second")]))
        .unwrap();
    assert!(drain(&adapter).is_empty());
    assert_eq!(keys_of(&adapter), vec![U1]);
    assert_eq!(adapter.peripheral(&U1).unwrap().path, "second");
    adapter.start(Ok(vec![device(U1, 0xff00, "third")])).unwrap();
    assert_eq!(adapter.peripheral(&U1).unwrap().path, "third");
}

#[test]
fn a_registered_device_is_not_refreshed_by_a_pass() {
    let mut adapter = Adapter::new();
    adapter.start(Ok(vec![device(U1, 0xff00, "old")])).unwrap();
    adapter.usb_device_change(Ok(vec![device(U1, 0xff00, "new")])).unwrap();
    assert!(drain(&adapter).is_empty());
    assert_eq!(adapter.peripheral(&U1).unwrap().path, "old");
}

#[test]
fn two_new_devices_with_one_id_are_both_announced() {
    let mut adapter = Adapter::new();
    adapter
        .usb_device_change(Ok(vec![device(U1, 0xff00, "first"), device(U1, 0xff00, "second")]))
        .unwrap();
    let events = drain(&adapter);
    assert_eq!(events.len(), 2);
    assert!(matches!(events[0], CentralEvent::DeviceAdd(U1)));
    assert!(matches!(events[1], CentralEvent::DeviceAdd(U1)));
    assert_eq!(adapter.peripheral(&U1).unwrap().path, "second");
}

#[test]
fn a_device_whose_managed_interface_is_gone_is_removed() {
    let mut adapter = Adapter::new();
    adapter.start(Ok(vec![device(U1, 0xff00, "vendor")])).unwrap();
    adapter.usb_device_change(Ok(vec![device(U1, 0x0001, "keyboard")])).unwrap();
    assert!(keys_of(&adapter).is_empty());
    let events = drain(&adapter);
    assert_eq!(events.len(), 1);
    assert!(matches!(&events[0], CentralEvent::DeviceRemove(gone) if gone.path == "vendor"));
}

#[test]
fn additions_are_announced_before_removals() {
    let mut manager = Manager::new();
    manager.add_devices(U1, device(U1, 0xff00, "one")).unwrap();
    manager.add_devices(U2, device(U2, 0xff00, "two")).unwrap();
    let scan = vec![device(U3, 0xff00, "three")];
    let events = Adapter::synchronize(&mut manager, &scan);
    assert_eq!(events.len(), 3);
    assert!(matches!(events[0], CentralEvent::DeviceAdd(U3)));
    let mut removed: Vec<u128> = events[1..]
        .iter()
        .map(|event| match event {
            CentralEvent::DeviceRemove(device) => device.id,
            other => panic!("{:?}", other),
        })
        .collect();
    removed.sort();
    assert_eq!(removed, sorted(vec![U1, U2]));
    assert_eq!(manager.device_keys(), vec![U3]);
    assert!(manager.event_channel().try_recv().is_err());
}

#[test]
fn a_failed_scan_is_handed_back_and_changes_nothing() {
    let mut adapter = Adapter::new();
    assert!(matches!(adapter.start(Err(Error::Win32(5))), Err(Error::Win32(5))));
    adapter.start(Ok(vec![device(U1, 0xff00, "one")])).unwrap();
    let failed = adapter.usb_device_change(Err(Error::Other(String::from("no device list"))));
    assert!(matches!(failed, Err(Error::Other(message)) if message == "no device list"));
    assert_eq!(keys_of(&adapter), vec![U1]);
    assert!(drain(&adapter).is_empty());
}

#[test]
fn peripheral_is_found_by_id_or_not_found() {
    let mut adapter = Adapter::new();
    adapter.start(Ok(vec![device(U1, 0xff00, "one")])).unwrap();
    let found = adapter.peripheral(&U1).unwrap();
    assert_eq!(found.id, U1);
    assert_eq!(found.path, "one");
    assert!(matches!(adapter.peripheral(&U2), Err(Error::NotFound)));
}

#[test]
fn an_event_copy_is_the_same_event() {
    let added = CentralEvent::DeviceAdd(U1).clone();
    assert!(matches!(added, CentralEvent::DeviceAdd(U1)));
    let removed = CentralEvent::DeviceRemove(device(U2, 0xff00, "two")).clone();
    assert!(matches!(removed, CentralEvent::DeviceRemove(gone) if gone.id == U2 && gone.path == "two"));
}

#[test]
fn a_pass_hands_back_what_it_put_on_the_channel() {
    let mut adapter = Adapter::new();
    adapter.start(Ok(vec![device(U1, 0xff00, "one")])).unwrap();
    let announced = adapter
        .usb_device_change(Ok(vec![device(U2, 0xff00, "two"), device(U3, 0xff00, "three")]))
        .unwrap();
    let received = drain(&adapter);
    assert_eq!(announced.len(), 3);
    assert_eq!(received.len(), 3);
    assert!(matches!(announced[0], CentralEvent::DeviceAdd(U2)));
    assert!(matches!(announced[1], CentralEvent::DeviceAdd(U3)));
    assert!(matches!(&announced[2], CentralEvent::DeviceRemove(gone) if gone.id == U1 && gone.path == "one"));
    assert!(matches!(received[0], CentralEvent::DeviceAdd(U2)));
    assert!(matches!(received[1], CentralEvent::DeviceAdd(U3)));
    assert!(matches!(&received[2], CentralEvent::DeviceRemove(gone) if gone.id == U1));
    assert!(adapter.usb_device_change(Ok(vec![device(U2, 0xff00, "two"), device(U3, 0xff00, "three")])).unwrap().is_empty());
}

#[test]
fn every_handle_belongs_to_the_channel_of_its_manager() {
    let manager = Manager::new();
    let first = manager.event_channel();
    let second = manager.event_channel();
    assert!(first.same_channel(&second));
    let other = Manager::new();
    assert!(!first.same_channel(&other.event_channel()));
    other.emit(CentralEvent::DeviceAdd(U2));
    assert!(first.try_recv().is_err());
    manager.emit(CentralEvent::DeviceAdd(U1));
    assert!(matches!(second.try_recv(), Ok(CentralEvent::DeviceAdd(U1))));
}

#[test]
fn every_handle_belongs_to_the_channel_of_its_adapter() {
    let mut adapter = Adapter::new();
    let first = adapter.events().unwrap();
    let second = adapter.events().unwrap();
    assert!(first.same_channel(&second));
    let other = Adapter::new();
    assert!(!first.same_channel(&other.events().unwrap()));
    adapter.usb_device_change(Ok(vec![device(U1, 0xff00, "one")])).unwrap();
    assert!(other.events().unwrap().try_recv().is_err());
    assert!(matches!(second.try_recv(), Ok(CentralEvent::DeviceAdd(U1))));
    assert!(first.try_recv().is_err());
}
