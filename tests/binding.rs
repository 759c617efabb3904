use i2c_binding::error::{from_result, Error, EBUSY, EINVAL, ENODEV};
use i2c_binding::i2c::{Adapter, Client, ClientRecord, Driver, Registry};
use i2c_binding::id_table::{
    DeviceId, IdKind, IdTable, OfDeviceId, I2C_ENTRY_SIZE, I2C_NAME_SIZE, OF_COMPATIBLE_SIZE,
    OF_ENTRY_SIZE,
};
use std::cell::RefCell;
use std::rc::Rc;

fn b(s: &str) -> Vec<u8> {
    s.as_bytes().to_vec()
}

fn i2c_table(entries: &[(&str, Option<u32>)]) -> IdTable<u32> {
    let ids = entries.iter().map(|(n, _)| DeviceId(b(n))).collect();
    let infos = entries.iter().map(|(_, i)| *i).collect();
    IdTable::new_i2c(ids, infos, 8)
}

fn of_table(entries: &[(&str, Option<u32>)]) -> IdTable<u32> {
    let ids = entries.iter().map(|(n, _)| OfDeviceId(b(n))).collect();
    let infos = entries.iter().map(|(_, i)| *i).collect();
    IdTable::new_of(ids, infos, 8)
}

fn client(name: &str, compatible: &[&str]) -> Client {
    Client::new(b(name), compatible.iter().map(|c| b(c)).collect()).unwrap()
}

/// Per-device state that records what `remove` saw.
struct State {
    value: u32,
    log: Rc<RefCell<Vec<u32>>>,
}

struct Recording;

impl Driver for Recording {
    type Data = State;
    type IdInfo = u32;

    fn probe(_client: &Client, id_info: Option<&u32>) -> Result<State, Error> {
        Ok(State { value: id_info.copied().unwrap_or(0) + 1000, log: Rc::new(RefCell::new(Vec::new())) })
    }

    fn remove(data: &State) {
        data.log.borrow_mut().push(data.value);
    }

    fn device_remove(data: &State) {
        data.log.borrow_mut().push(0);
    }
}

struct Refusing;

impl Driver for Refusing {
    type Data = u32;
    type IdInfo = u32;

    fn probe(_client: &Client, _id_info: Option<&u32>) -> Result<u32, Error> {
        Err(Error::from_code(ENODEV))
    }
}

fn register<T: Driver<IdInfo = u32>>(
    reg: &mut Registry,
    name: &str,
    i2c: Option<IdTable<u32>>,
    of: Option<IdTable<u32>>,
) -> Result<Adapter<T>, Error> {
    Adapter::<T>::register(reg, b(name), i2c, of)
}

#[test]
fn to_rawid_pads_name_and_keeps_offset() {
    let raw = DeviceId(b("fpga")).to_rawid(96);
    assert_eq!(raw.name.len(), I2C_NAME_SIZE);
    assert_eq!(&raw.name[..4], b"fpga");
    assert!(raw.name[4..].iter().all(|&c| c == 0));
    assert_eq!(raw.driver_data, 96);
    let of = OfDeviceId(b("acme,x")).to_rawid(-3);
    assert_eq!(of.name.len(), OF_COMPATIBLE_SIZE);
    assert_eq!(&of.name[..6], b"acme,x");
    assert_eq!(of.driver_data, -3);
}

#[test]
fn table_offsets_lead_to_own_slots() {
    let t = i2c_table(&[("dev-a", Some(10)), ("dev-b", None), ("dev-c", Some(30))]);
    assert_eq!(t.kind(), IdKind::I2c);
    assert_eq!(t.len(), 3);
    assert_eq!(t.info_at(0), Some(&10));
    assert_eq!(t.info_at(1), None);
    assert_eq!(t.info_at(2), Some(&30));
    // the sentinel resolves to nothing
    assert_eq!(t.info_at(3), None);
}

#[test]
fn of_table_offsets_lead_to_own_slots() {
    let t = of_table(&[("acme,a", None), ("acme,b", Some(7))]);
    assert_eq!(t.kind(), IdKind::Of);
    assert_eq!(t.info_at(0), None);
    assert_eq!(t.info_at(1), Some(&7));
    assert_eq!(t.info_at(2), None);
    assert_eq!(IdKind::Of.entry_size(), OF_ENTRY_SIZE);
    assert_eq!(IdKind::I2c.entry_size(), I2C_ENTRY_SIZE);
    assert_eq!(IdKind::I2c.name_width(), I2C_NAME_SIZE);
}

#[test]
fn two_entry_scenario() {
    let t = i2c_table(&[("dev-a", Some(10)), ("dev-b", None)]);
    assert_eq!(t.match_name(&b("dev-a")), Some(0));
    assert_eq!(t.match_name(&b("dev-b")), Some(1));
    assert_eq!(t.match_name(&b("dev-c")), None);
    let mut reg = Registry::new();
    let a = register::<Recording>(&mut reg, "drv", Some(t), None).unwrap();
    assert_eq!(a.get_id_info(&client("dev-a", &[])), Some(&10));
    assert_eq!(a.get_id_info(&client("dev-b", &[])), None);
    assert_eq!(a.get_id_info(&client("dev-c", &[])), None);
}

#[test]
fn name_match_is_exact() {
    let t = i2c_table(&[("dev", Some(1)), ("dev-long", Some(2))]);
    assert_eq!(t.match_name(&b("dev-long")), Some(1));
    assert_eq!(t.match_name(&b("de")), None);
    assert_eq!(t.match_name(&b("dev-longer")), None);
}

#[test]
fn first_entry_wins_on_duplicate_names() {
    let t = i2c_table(&[("x", Some(1)), ("x", Some(2))]);
    assert_eq!(t.match_name(&b("x")), Some(0));
}

#[test]
fn firmware_match_prefers_most_specific_compatible() {
    let t = of_table(&[("acme,generic", Some(1)), ("acme,model-7", Some(2))]);
    assert_eq!(t.match_compatible(&vec![b("acme,model-7"), b("acme,generic")]), Some(1));
    assert_eq!(t.match_compatible(&vec![b("other"), b("acme,generic")]), Some(0));
    assert_eq!(t.match_compatible(&vec![b("other")]), None);
    assert_eq!(t.match_compatible(&vec![]), None);
}

#[test]
fn exact_name_table_takes_priority() {
    let mut reg = Registry::new();
    let a = register::<Recording>(
        &mut reg,
        "drv",
        Some(i2c_table(&[("dev-a", Some(10))])),
        Some(of_table(&[("acme,a", Some(20))])),
    )
    .unwrap();
    assert_eq!(a.get_id_info(&client("dev-a", &["acme,a"])), Some(&10));
}

#[test]
fn firmware_table_is_the_fallback() {
    let mut reg = Registry::new();
    let a = register::<Recording>(
        &mut reg,
        "drv",
        Some(i2c_table(&[("dev-a", None)])),
        Some(of_table(&[("acme,a", Some(20))])),
    )
    .unwrap();
    // exact entry without information
    assert_eq!(a.get_id_info(&client("dev-a", &["acme,a"])), Some(&20));
    // no exact entry at all
    assert_eq!(a.get_id_info(&client("dev-z", &["acme,a"])), Some(&20));
    // neither table
    assert_eq!(a.get_id_info(&client("dev-z", &["acme,q"])), None);
    let only_of = register::<Recording>(&mut reg, "drv2", None, Some(of_table(&[("acme,a", Some(5))]))).unwrap();
    assert_eq!(only_of.get_id_info(&client("dev-a", &["acme,a"])), Some(&5));
    let none = register::<Recording>(&mut reg, "drv3", None, None).unwrap();
    assert_eq!(none.get_id_info(&client("dev-a", &["acme,a"])), None);
}

#[test]
fn duplicate_registration_is_refused() {
    let mut reg = Registry::new();
    let first = register::<Recording>(&mut reg, "same", Some(i2c_table(&[("dev-a", Some(1))])), None);
    assert!(first.is_ok());
    let second = register::<Recording>(&mut reg, "same", Some(i2c_table(&[("dev-a", Some(1))])), None);
    match second {
        Err(e) => assert_eq!(e.to_errno(), -EBUSY),
        Ok(_) => panic!("second registration under one name must fail"),
    }
    assert!(reg.is_registered(&b("same")));
    first.unwrap().unregister(&mut reg);
    assert!(!reg.is_registered(&b("same")));
    assert!(register::<Recording>(&mut reg, "same", None, None).is_ok());
}

#[test]
fn registry_entry_points() {
    let mut reg = Registry::new();
    assert_eq!(reg.register_driver(&b("a")), 0);
    assert_eq!(reg.register_driver(&b("b")), 0);
    assert_eq!(reg.register_driver(&b("a")), -EBUSY);
    reg.del_driver(&b("a"));
    assert!(!reg.is_registered(&b("a")));
    assert!(reg.is_registered(&b("b")));
    reg.del_driver(&b("missing"));
    assert!(reg.is_registered(&b("b")));
}

#[test]
fn probe_then_remove_sees_the_same_state_once() {
    let mut reg = Registry::new();
    let a = register::<Recording>(&mut reg, "drv", Some(i2c_table(&[("dev-a", Some(10))])), None).unwrap();
    let mut rec = ClientRecord::new(client("dev-a", &[]));
    assert!(!rec.is_bound());
    assert_eq!(a.probe_callback(&mut rec), 0);
    assert!(rec.is_bound());
    let stored = rec.clientdata().unwrap();
    assert_eq!(stored.value, 1010);
    let log = stored.log.clone();
    a.remove_callback(&mut rec);
    assert!(!rec.is_bound());
    assert!(rec.clientdata().is_none());
    assert_eq!(*log.borrow(), vec![1010, 0]);
    // the state itself has been released
    assert_eq!(Rc::strong_count(&log), 1);
    assert_eq!(rec.client().name(), &b("dev-a"));
}

#[test]
fn failed_probe_leaves_device_unbound() {
    let mut reg = Registry::new();
    let a = register::<Refusing>(&mut reg, "drv", Some(i2c_table(&[("dev-a", Some(10))])), None).unwrap();
    let mut rec = ClientRecord::new(client("dev-a", &[]));
    assert_eq!(a.probe_callback(&mut rec), -ENODEV);
    assert!(!rec.is_bound());
}

#[test]
fn store_and_release_state() {
    let mut rec: ClientRecord<u32> = ClientRecord::new(client("dev", &["acme,x"]));
    assert_eq!(rec.store_state(Err(Error::from_code(EINVAL))), -EINVAL);
    assert!(!rec.is_bound());
    assert_eq!(rec.store_state(Ok(77)), 0);
    assert_eq!(rec.clientdata(), Some(&77));
    assert_eq!(rec.release_state(), 77);
    assert!(!rec.is_bound());
    assert_eq!(rec.client().compatible(), &vec![b("acme,x")]);
}

#[test]
fn client_names_are_checked() {
    let bad = |name: &str, compat: Vec<Vec<u8>>| match Client::new(b(name), compat) {
        Err(e) => e.to_errno(),
        Ok(_) => 0,
    };
    assert_eq!(bad("", vec![]), -EINVAL);
    assert_eq!(bad("twenty-bytes-long-xx", vec![]), -EINVAL);
    assert_eq!(bad("nineteen-bytes-long", vec![]), 0);
    assert_eq!(bad("ok", vec![vec![b'a', 0]]), -EINVAL);
    assert_eq!(bad("ok", vec![vec![]]), -EINVAL);
    assert_eq!(bad("ok", vec![vec![b'a'; 127]]), 0);
    assert_eq!(bad("ok", vec![vec![b'a'; 128]]), -EINVAL);
    match Client::new(vec![b'a', 0, b'b'], vec![]) {
        Err(e) => assert_eq!(e.to_errno(), -EINVAL),
        Ok(_) => panic!("a NUL byte is no part of a name"),
    }
}

#[test]
fn status_conversions() {
    assert!(Error::check_status(0).is_ok());
    assert_eq!(Error::check_status(-16), Err(Error::from_code(EBUSY)));
    assert_eq!(from_result(Ok(())), 0);
    assert_eq!(from_result(Err(Error::from_code(ENODEV))), -ENODEV);
}
