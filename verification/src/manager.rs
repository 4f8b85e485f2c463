//! The device registry and the stream of events that its changes are
//! announced on.
//!
//! The registry is a concurrent map from a device's id to its descriptor. The
//! contracts here describe it as a map that one owner changes at a time: who
//! shares a `Manager` among threads puts it behind a lock.

use crate::hid_device::HidDevice;
use crate::CentralEvent;
use crate::Error;
use crossbeam_channel::Receiver;
use crossbeam_channel::Sender;
use dashmap::DashMap;
use vstd::prelude::*;

verus! {

/// The concurrent map of the `dashmap` crate. Nothing is seen of what is
/// inside it: what a registry holds is told by [`registry_entries`].
#[verifier::external_type_specification]
#[verifier::external_body]
#[verifier::reject_recursive_types(K)]
#[verifier::reject_recursive_types(V)]
#[verifier::reject_recursive_types(S)]
pub struct ExDashMap<K, V, S>(DashMap<K, V, S>);

/// The sending end of a channel of the `crossbeam_channel` crate. Nothing is
/// said of what is in the channel: its receivers take from it at any time.
#[verifier::external_type_specification]
#[verifier::external_body]
#[verifier::reject_recursive_types(T)]
pub struct ExSender<T>(Sender<T>);

/// The receiving end of a channel of the `crossbeam_channel` crate.
#[verifier::external_type_specification]
#[verifier::external_body]
#[verifier::reject_recursive_types(T)]
pub struct ExReceiver<T>(Receiver<T>);

/// The entries that a registry holds: each id with its descriptor.
pub uninterp spec fn registry_entries(registry: DashMap<u128, HidDevice>) -> Map<u128, HidDevice>;

/// Whether `keys` lists the ids of `registry`, each of them once.
pub open spec fn arranges(keys: Seq<u128>, registry: Map<u128, HidDevice>) -> bool {
    &&& keys.no_duplicates()
    &&& forall|key: u128| keys.contains(key) <==> registry.contains_key(key)
}

/// The descriptors that `registry` holds under `keys`, in the order of `keys`.
pub open spec fn values_at(keys: Seq<u128>, registry: Map<u128, HidDevice>) -> Seq<HidDevice> {
    Seq::new(keys.len(), |i: int| registry[keys[i]])
}

/// Whether `entries` are the entries of `registry`, each of them once.
pub open spec fn lists(entries: Seq<(u128, HidDevice)>, registry: Map<u128, HidDevice>) -> bool {
    &&& forall|i: int, j: int| 0 <= i < j < entries.len() ==> entries[i].0 != entries[j].0
    &&& forall|i: int| 0 <= i < entries.len() ==> #[trigger] registry.contains_pair(entries[i].0, entries[i].1)
    &&& forall|key: u128| #[trigger]
        registry.contains_key(key) ==> exists|i: int| 0 <= i < entries.len() && #[trigger] entries[i].0 == key
}

/// `DashMap::new`: a map that holds nothing.
#[verifier::external_body]
fn registry_new() -> (registry: DashMap<u128, HidDevice>)
    ensures
        registry_entries(registry).dom() == Set::<u128>::empty(),
{
    DashMap::new()
}

/// `DashMap::insert`: afterwards the map holds `device` under `key`, in place
/// of what it held there, and everything else as before. What it held there
/// before is returned.
#[verifier::external_body]
fn registry_insert(registry: &mut DashMap<u128, HidDevice>, key: u128, device: HidDevice) -> (prior:
    Option<HidDevice>)
    ensures
        registry_entries(*final(registry)) == registry_entries(*old(registry)).insert(key, device),
        prior == (if registry_entries(*old(registry)).contains_key(key) {
            Some(registry_entries(*old(registry))[key])
        } else {
            None
        }),
{
    registry.insert(key, device)
}

/// `DashMap::contains_key`: whether the map holds an entry under `key`.
#[verifier::external_body]
fn registry_contains(registry: &DashMap<u128, HidDevice>, key: u128) -> (held: bool)
    ensures
        held == registry_entries(*registry).contains_key(key),
{
    registry.contains_key(&key)
}

/// `DashMap::remove`: afterwards the map holds nothing under `key` and
/// everything else as before. The entry that it held there is returned, `None`
/// where it held none.
#[verifier::external_body]
fn registry_remove(registry: &mut DashMap<u128, HidDevice>, key: u128) -> (entry: Option<
    (u128, HidDevice),
>)
    ensures
        registry_entries(*final(registry)) == registry_entries(*old(registry)).remove(key),
        entry == (if registry_entries(*old(registry)).contains_key(key) {
            Some((key, registry_entries(*old(registry))[key]))
        } else {
            None
        }),
{
    registry.remove(&key)
}

/// `DashMap::get`: a copy of the descriptor that the map holds under `key`,
/// `None` where it holds none.
#[verifier::external_body]
fn registry_get(registry: &DashMap<u128, HidDevice>, key: u128) -> (device: Option<HidDevice>)
    ensures
        device == (if registry_entries(*registry).contains_key(key) {
            Some(registry_entries(*registry)[key])
        } else {
            None
        }),
{
    registry.get(&key).map(|entry| entry.value().clone())
}

/// `DashMap::iter`: a copy of every entry of the map, each once, in the order
/// in which the map is walked, of which nothing is said.
#[verifier::external_body]
fn registry_snapshot(registry: &DashMap<u128, HidDevice>) -> (entries: Vec<(u128, HidDevice)>)
    ensures
        lists(entries@, registry_entries(*registry)),
{
    registry.iter().map(|entry| (*entry.key(), entry.value().clone())).collect()
}

/// `crossbeam_channel::unbounded`: the two ends of a new channel.
#[verifier::external_body]
fn channel_new() -> (ends: (Sender<CentralEvent>, Receiver<CentralEvent>)) {
    crossbeam_channel::unbounded()
}

/// `Sender::send`: whether the event was taken. It is not where no receiver
/// is left.
#[verifier::external_body]
fn channel_send(sender: &Sender<CentralEvent>, event: CentralEvent) -> (sent: bool) {
    sender.send(event).is_ok()
}

/// What `Receiver::same_channel` says of two receiving handles: whether they
/// belong to one channel, and so take from one queue.
pub uninterp spec fn same_channel(one: Receiver<CentralEvent>, other: Receiver<CentralEvent>) -> bool;

/// `Receiver::clone`: another handle that belongs to the channel of
/// `receiver`. What one of the two takes from the queue the other does not
/// get.
#[verifier::external_body]
fn channel_subscribe(receiver: &Receiver<CentralEvent>) -> (handle: Receiver<CentralEvent>)
    ensures
        same_channel(*receiver, handle),
{
    receiver.clone()
}

/// The registry of attached devices, with the channel on which changes to it
/// are announced.
pub struct Manager {
    devices: DashMap<u128, HidDevice>,
    receiver: Receiver<CentralEvent>,
    sender: Sender<CentralEvent>,
}

impl View for Manager {
    type V = Map<u128, HidDevice>;

    /// The registry: each registered id with its descriptor.
    closed spec fn view(&self) -> Map<u128, HidDevice> {
        registry_entries(self.devices)
    }
}

impl Manager {
    /// An empty registry with a channel of its own.
    pub fn new() -> (manager: Self)
        ensures
            manager@ == Map::<u128, HidDevice>::empty(),
    {
        let (sender, receiver) = channel_new();
        let manager = Manager { devices: registry_new(), receiver, sender };
        assert(manager@ =~= Map::<u128, HidDevice>::empty());
        manager
    }

    /// Puts `event` on the channel. Whether anyone receives it is not known
    /// here, and nothing is made of a failure to send.
    pub fn emit(&self, event: CentralEvent) {
        let _ = channel_send(&self.sender, event);
    }

    /// Whether `handle` belongs to this manager's channel: it takes from the
    /// queue that the manager's own receiving end takes from.
    pub closed spec fn listens(&self, handle: Receiver<CentralEvent>) -> bool {
        same_channel(self.receiver, handle)
    }

    /// A handle on the channel's receiving end. All handles share one queue:
    /// an event goes to one of them, not to each.
    pub fn event_channel(&self) -> (handle: Receiver<CentralEvent>)
        ensures
            self.listens(handle),
    {
        channel_subscribe(&self.receiver)
    }

    /// Registers `device` under `key`, in place of what was registered there.
    pub fn add_devices(&mut self, key: u128, device: HidDevice) -> (added: Result<(), Error>)
        ensures
            added is Ok,
            final(self)@ == old(self)@.insert(key, device),
    {
        let _ = registry_insert(&mut self.devices, key, device);
        Ok(())
    }

    /// Whether a device is registered under `key`.
    pub fn contains_device(&self, key: u128) -> (held: bool)
        ensures
            held == self@.contains_key(key),
    {
        registry_contains(&self.devices, key)
    }

    /// Takes the device registered under `key` out of the registry and returns
    /// it with its key; `None`, and nothing changes, where there is none.
    pub fn remove_device(&mut self, key: u128) -> (entry: Option<(u128, HidDevice)>)
        ensures
            final(self)@ == old(self)@.remove(key),
            old(self)@.contains_key(key) ==> entry == Some((key, old(self)@[key])),
            !old(self)@.contains_key(key) ==> entry.is_none() && final(self)@ == old(self)@,
    {
        let entry = registry_remove(&mut self.devices, key);
        assert(!old(self)@.contains_key(key) ==> old(self)@.remove(key) =~= old(self)@);
        entry
    }

    /// A copy of every registered descriptor, in no particular order: the
    /// descriptors under the registry's ids, as some sequence lists the ids.
    pub fn devices(&self) -> (devices: Vec<HidDevice>)
        ensures
            exists|keys: Seq<u128>| arranges(keys, self@) && devices@ == values_at(keys, self@),
    {
        let entries = registry_snapshot(&self.devices);
        let mut devices: Vec<HidDevice> = Vec::new();
        let mut i: usize = 0;
        while i < entries.len()
            invariant
                i <= entries@.len(),
                lists(entries@, self@),
                devices@.len() == i,
                forall|j: int| 0 <= j < i ==> devices@[j] == entries@[j].1,
            decreases entries@.len() - i,
        {
            devices.push(entries[i].1.clone());
            i = i + 1;
        }
        proof {
            let keys = Seq::new(entries@.len(), |j: int| entries@[j].0);
            lemma_listed_keys(entries@, self@);
            assert forall|j: int| 0 <= j < keys.len() implies devices@[j] == values_at(
                keys,
                self@,
            )[j] by {
                assert(self@.contains_pair(entries@[j].0, entries@[j].1));
            }
            assert(devices@ =~= values_at(keys, self@));
        }
        devices
    }

    /// The registered ids, each once, in no particular order.
    pub fn device_keys(&self) -> (keys: Vec<u128>)
        ensures
            arranges(keys@, self@),
    {
        let entries = registry_snapshot(&self.devices);
        let mut keys: Vec<u128> = Vec::new();
        let mut i: usize = 0;
        while i < entries.len()
            invariant
                i <= entries@.len(),
                keys@.len() == i,
                forall|j: int| 0 <= j < i ==> keys@[j] == entries@[j].0,
            decreases entries@.len() - i,
        {
            keys.push(entries[i].0);
            i = i + 1;
        }
        proof {
            lemma_listed_keys(entries@, self@);
            assert(keys@ =~= Seq::new(entries@.len(), |j: int| entries@[j].0));
        }
        keys
    }

    /// A copy of the descriptor registered under `key`, `None` where there is
    /// none.
    pub fn device(&self, key: &u128) -> (device: Option<HidDevice>)
        ensures
            self@.contains_key(*key) ==> device == Some(self@[*key]),
            !self@.contains_key(*key) ==> device.is_none(),
    {
        registry_get(&self.devices, *key)
    }
}

/// The ids of a registry's entries, in the entries' order, list its ids.
proof fn lemma_listed_keys(entries: Seq<(u128, HidDevice)>, registry: Map<u128, HidDevice>)
    requires
        lists(entries, registry),
    ensures
        arranges(Seq::new(entries.len(), |j: int| entries[j].0), registry),
{
    let keys = Seq::new(entries.len(), |j: int| entries[j].0);
    assert forall|key: u128| keys.contains(key) <==> registry.contains_key(key) by {
        if keys.contains(key) {
            let j = choose|j: int| 0 <= j < keys.len() && keys[j] == key;
            assert(registry.contains_pair(entries[j].0, entries[j].1));
        }
        if registry.contains_key(key) {
            let j = choose|j: int| 0 <= j < entries.len() && #[trigger] entries[j].0 == key;
            assert(keys[j] == key);
        }
    }
}

/// Changes under two different ids do not disturb each other: to register
/// or remove under the one and to register or remove under the other gives the
/// same registry in either order, and neither change is lost.
pub proof fn lemma_changes_under_distinct_ids_commute(
    registry: Map<u128, HidDevice>,
    one: u128,
    other: u128,
    device: HidDevice,
    another: HidDevice,
)
    requires
        one != other,
    ensures
        registry.insert(one, device).insert(other, another) == registry.insert(
            other,
            another,
        ).insert(one, device),
        registry.insert(one, device).remove(other) == registry.remove(other).insert(one, device),
        registry.remove(one).remove(other) == registry.remove(other).remove(one),
        registry.insert(one, device).insert(other, another).contains_pair(one, device),
        registry.insert(one, device).insert(other, another).contains_pair(other, another),
        registry.insert(one, device).remove(other).contains_pair(one, device),
        !registry.insert(one, device).remove(other).contains_key(other),
        !registry.remove(one).remove(other).contains_key(one),
        !registry.remove(one).remove(other).contains_key(other),
{
    assert(registry.insert(one, device).insert(other, another) =~= registry.insert(
        other,
        another,
    ).insert(one, device));
    assert(registry.insert(one, device).remove(other) =~= registry.remove(other).insert(
        one,
        device,
    ));
    assert(registry.remove(one).remove(other) =~= registry.remove(other).remove(one));
}

} // verus!
