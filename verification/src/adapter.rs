//! Keeps the registry in step with the devices that are attached.
//!
//! The adapter is seeded from a first scan and then brought up to date once for
//! every notice that the set of attached devices may have changed. It looks
//! only at the devices of the managed usage page: the others are never
//! registered, compared or announced.

use crate::hid_device::HidDevice;
use crate::manager::arranges;
use crate::manager::values_at;
use crate::manager::Manager;
use crate::CentralEvent;
use crate::Error;
use crossbeam_channel::Receiver;
use vstd::prelude::*;

verus! {

/// The usage page of the devices that the registry holds.
pub const MANAGED_USAGE_PAGE: u16 = 0xff00;

/// Whether `device` is of the managed usage page.
pub open spec fn managed(device: HidDevice) -> bool {
    device.usage_page == MANAGED_USAGE_PAGE
}

/// `managed`, as a predicate to filter by.
pub open spec fn is_managed() -> spec_fn(HidDevice) -> bool {
    |device: HidDevice| managed(device)
}

/// The predicate of the devices that are new to `registry`: managed, and with
/// an id that is not registered.
pub open spec fn is_arrival(registry: Map<u128, HidDevice>) -> spec_fn(HidDevice) -> bool {
    |device: HidDevice| managed(device) && !registry.contains_key(device.id)
}

/// The devices of `scan` that are new to `registry`, in the order of the scan.
pub open spec fn arrivals(registry: Map<u128, HidDevice>, scan: Seq<HidDevice>) -> Seq<HidDevice> {
    scan.filter(is_arrival(registry))
}

/// Whether `scan` holds a managed device with this id.
pub open spec fn offers(scan: Seq<HidDevice>, id: u128) -> bool {
    exists|i: int| 0 <= i < scan.len() && managed(scan[i]) && (#[trigger] scan[i]).id == id
}

/// The ids of the managed devices of `scan`.
pub open spec fn managed_ids(scan: Seq<HidDevice>) -> Set<u128> {
    Set::new(|id: u128| offers(scan, id))
}

/// `registry` after each of `devices` was registered under its id, one after
/// the other: of two with one id the later one stays.
pub open spec fn registered(registry: Map<u128, HidDevice>, devices: Seq<HidDevice>) -> Map<
    u128,
    HidDevice,
>
    decreases devices.len(),
{
    if devices.len() == 0 {
        registry
    } else {
        registered(registry, devices.drop_last()).insert(devices.last().id, devices.last())
    }
}

/// The registry after it was seeded from `scan`: every managed device of the
/// scan is registered, in place of what was registered under its id.
pub open spec fn seeded(registry: Map<u128, HidDevice>, scan: Seq<HidDevice>) -> Map<
    u128,
    HidDevice,
> {
    registered(registry, scan.filter(is_managed()))
}

/// The registry after it was brought up to date with `scan`: the new devices
/// are registered, and what is registered under an id that the scan does not
/// offer is gone.
pub open spec fn synced(registry: Map<u128, HidDevice>, scan: Seq<HidDevice>) -> Map<
    u128,
    HidDevice,
> {
    registered(registry, arrivals(registry, scan)).restrict(managed_ids(scan))
}

/// The part of `registry` that leaves it when it is brought up to date with
/// `scan`: what is registered under an id that the scan does not offer.
pub open spec fn departed(registry: Map<u128, HidDevice>, scan: Seq<HidDevice>) -> Map<
    u128,
    HidDevice,
> {
    registry.remove_keys(managed_ids(scan))
}

/// The events that announce `devices` as added, in their order.
pub open spec fn arrival_events(devices: Seq<HidDevice>) -> Seq<CentralEvent> {
    Seq::new(devices.len(), |i: int| CentralEvent::DeviceAdd(devices[i].id))
}

/// The events that announce what `registry` holds under `keys` as removed, in
/// the order of `keys`.
pub open spec fn departure_events(keys: Seq<u128>, registry: Map<u128, HidDevice>) -> Seq<
    CentralEvent,
> {
    Seq::new(keys.len(), |i: int| CentralEvent::DeviceRemove(registry[keys[i]]))
}

/// Whether `registry` holds managed devices only, each under its own id.
pub open spec fn well_kept(registry: Map<u128, HidDevice>) -> bool {
    forall|id: u128| #[trigger]
        registry.contains_key(id) ==> managed(registry[id]) && registry[id].id == id
}

/// Whether some device of `devices` has this id.
pub open spec fn names(devices: Seq<HidDevice>, id: u128) -> bool {
    exists|i: int| 0 <= i < devices.len() && (#[trigger] devices[i]).id == id
}

/// Filtering one more element of a sequence.
proof fn lemma_filter_next(scan: Seq<HidDevice>, keep: spec_fn(HidDevice) -> bool, i: int)
    requires
        0 <= i < scan.len(),
    ensures
        scan.take(i + 1).filter(keep) == (if keep(scan[i]) {
            scan.take(i).filter(keep).push(scan[i])
        } else {
            scan.take(i).filter(keep)
        }),
{
    assert(scan.take(i + 1) =~= scan.take(i).push(scan[i]));
    scan.take(i).lemma_filter_push(scan[i], keep);
}

/// Registering one more device of a sequence.
proof fn lemma_registered_next(registry: Map<u128, HidDevice>, devices: Seq<HidDevice>, i: int)
    requires
        0 <= i < devices.len(),
    ensures
        registered(registry, devices.take(i + 1)) == registered(registry, devices.take(i)).insert(
            devices[i].id,
            devices[i],
        ),
{
    assert(devices.take(i + 1).drop_last() =~= devices.take(i));
}

/// Registering one device after others.
proof fn lemma_registered_push(
    registry: Map<u128, HidDevice>,
    devices: Seq<HidDevice>,
    device: HidDevice,
)
    ensures
        registered(registry, devices.push(device)) == registered(registry, devices).insert(
            device.id,
            device,
        ),
{
    assert(devices.push(device).drop_last() =~= devices);
}

/// What a list of ids holds after one more was put at its end.
proof fn lemma_pushed_ids(ids: Seq<u128>, last: u128)
    ensures
        forall|id: u128| ids.push(last).contains(id) <==> ids.contains(id) || id == last,
        ids.no_duplicates() && !ids.contains(last) ==> ids.push(last).no_duplicates(),
{
    let longer = ids.push(last);
    assert forall|id: u128| longer.contains(id) <==> ids.contains(id) || id == last by {
        if longer.contains(id) {
            let i = choose|i: int| 0 <= i < longer.len() && longer[i] == id;
            if i < ids.len() {
                assert(ids[i] == id);
            }
        }
        if ids.contains(id) {
            let i = choose|i: int| 0 <= i < ids.len() && ids[i] == id;
            assert(longer[i] == id);
        }
        if id == last {
            assert(longer[ids.len() as int] == id);
        }
    }
}

/// What `registered` holds: the ids that were registered before and those of
/// the devices; under an id of the devices one of them with that id, and under
/// any other id what was registered before.
pub proof fn lemma_registered_entries(registry: Map<u128, HidDevice>, devices: Seq<HidDevice>)
    ensures
        forall|id: u128| #[trigger]
            registered(registry, devices).contains_key(id) <==> registry.contains_key(id) || names(
                devices,
                id,
            ),
        forall|id: u128|
            names(devices, id) ==> exists|i: int|
                0 <= i < devices.len() && #[trigger] devices[i] == registered(
                    registry,
                    devices,
                )[id] && devices[i].id == id,
        forall|id: u128|
            !names(devices, id) ==> #[trigger] registered(registry, devices)[id] == registry[id],
    decreases devices.len(),
{
    if devices.len() > 0 {
        let rest = devices.drop_last();
        let last = devices.last();
        lemma_registered_entries(registry, rest);
        assert forall|id: u128| names(devices, id) <==> names(rest, id) || last.id == id by {
            if names(devices, id) {
                let i = choose|i: int| 0 <= i < devices.len() && (#[trigger] devices[i]).id == id;
                if i < rest.len() {
                    assert(rest[i].id == id);
                }
            }
            if names(rest, id) {
                let i = choose|i: int| 0 <= i < rest.len() && (#[trigger] rest[i]).id == id;
                assert(devices[i].id == id);
            }
            if last.id == id {
                assert(devices[devices.len() - 1].id == id);
            }
        }
        assert forall|id: u128| names(devices, id) implies exists|i: int|
            0 <= i < devices.len() && #[trigger] devices[i] == registered(registry, devices)[id]
                && devices[i].id == id by {
            if last.id == id {
                assert(devices[devices.len() - 1] == registered(registry, devices)[id]);
            } else {
                let i = choose|i: int|
                    0 <= i < rest.len() && #[trigger] rest[i] == registered(registry, rest)[id]
                        && rest[i].id == id;
                assert(devices[i] == registered(registry, devices)[id]);
            }
        }
    }
}

/// What `arrivals` holds: managed devices of the scan whose ids are not
/// registered, and under every id that the scan offers and the registry lacks
/// one of them.
pub proof fn lemma_arrivals(registry: Map<u128, HidDevice>, scan: Seq<HidDevice>)
    ensures
        forall|i: int|
            0 <= i < arrivals(registry, scan).len() ==> managed(
                #[trigger] arrivals(registry, scan)[i],
            ) && !registry.contains_key(arrivals(registry, scan)[i].id) && offers(
                scan,
                arrivals(registry, scan)[i].id,
            ),
        forall|id: u128|
            offers(scan, id) && !registry.contains_key(id) ==> #[trigger] names(
                arrivals(registry, scan),
                id,
            ),
{
    let keep = is_arrival(registry);
    let found = arrivals(registry, scan);
    assert forall|i: int| 0 <= i < found.len() implies managed(#[trigger] found[i])
        && !registry.contains_key(found[i].id) && offers(scan, found[i].id) by {
        scan.lemma_filter_pred(keep, i);
        assert(found.contains(found[i]));
        scan.lemma_filter_contains_rev(keep, found[i]);
        let j = choose|j: int| 0 <= j < scan.len() && scan[j] == found[i];
        assert(managed(scan[j]) && scan[j].id == found[i].id);
    }
    assert forall|id: u128| offers(scan, id) && !registry.contains_key(id) implies #[trigger] names(
        found,
        id,
    ) by {
        let j = choose|j: int| 0 <= j < scan.len() && managed(scan[j]) && (#[trigger] scan[j]).id == id;
        scan.lemma_filter_contains(keep, j);
        let i = choose|i: int| 0 <= i < found.len() && found[i] == scan[j];
        assert(found[i].id == id);
    }
}

/// The managed devices of a scan are those that the scan offers ids for.
proof fn lemma_managed_of(scan: Seq<HidDevice>)
    ensures
        forall|i: int|
            0 <= i < scan.filter(is_managed()).len() ==> managed(
                #[trigger] scan.filter(is_managed())[i],
            ),
{
    let found = scan.filter(is_managed());
    assert forall|i: int| 0 <= i < found.len() implies managed(#[trigger] found[i]) by {
        scan.lemma_filter_pred(is_managed(), i);
    }
}

/// After a registry was seeded from a scan it holds the ids that it held
/// before and those that the scan offers: under an id that the scan offers a
/// managed device of the scan with that id, and under any other id what was
/// registered before.
pub proof fn lemma_seeded_entries(registry: Map<u128, HidDevice>, scan: Seq<HidDevice>)
    ensures
        seeded(registry, scan).dom() == registry.dom().union(managed_ids(scan)),
        forall|id: u128|
            !offers(scan, id) ==> #[trigger] seeded(registry, scan)[id] == registry[id],
        forall|id: u128|
            offers(scan, id) ==> exists|i: int|
                0 <= i < scan.len() && managed(scan[i]) && scan[i].id == id && #[trigger] scan[i]
                    == seeded(registry, scan)[id],
{
    let kept = scan.filter(is_managed());
    lemma_managed_of(scan);
    lemma_registered_entries(registry, kept);
    assert forall|id: u128| names(kept, id) <==> offers(scan, id) by {
        if names(kept, id) {
            let j = choose|j: int| 0 <= j < kept.len() && (#[trigger] kept[j]).id == id;
            assert(kept.contains(kept[j]));
            scan.lemma_filter_contains_rev(is_managed(), kept[j]);
            let i = choose|i: int| 0 <= i < scan.len() && scan[i] == kept[j];
            assert(managed(scan[i]) && scan[i].id == id);
        }
        if offers(scan, id) {
            let i = choose|i: int|
                0 <= i < scan.len() && managed(scan[i]) && (#[trigger] scan[i]).id == id;
            scan.lemma_filter_contains(is_managed(), i);
            let j = choose|j: int| 0 <= j < kept.len() && kept[j] == scan[i];
            assert(kept[j].id == id);
        }
    }
    assert(seeded(registry, scan).dom() =~= registry.dom().union(managed_ids(scan)));
    assert forall|id: u128| offers(scan, id) implies exists|i: int|
        0 <= i < scan.len() && managed(scan[i]) && scan[i].id == id && #[trigger] scan[i] == seeded(
            registry,
            scan,
        )[id] by {
        assert(names(kept, id));
        let j = choose|j: int|
            0 <= j < kept.len() && #[trigger] kept[j] == registered(registry, kept)[id]
                && kept[j].id == id;
        assert(kept.contains(kept[j]));
        scan.lemma_filter_contains_rev(is_managed(), kept[j]);
        let i = choose|i: int| 0 <= i < scan.len() && scan[i] == kept[j];
        assert(scan[i] == seeded(registry, scan)[id]);
    }
}

/// Registering managed devices under their ids keeps a registry well kept.
proof fn lemma_registered_well_kept(registry: Map<u128, HidDevice>, devices: Seq<HidDevice>)
    requires
        well_kept(registry),
        forall|i: int| 0 <= i < devices.len() ==> managed(#[trigger] devices[i]),
    ensures
        well_kept(registered(registry, devices)),
{
    lemma_registered_entries(registry, devices);
    assert forall|id: u128| #[trigger]
        registered(registry, devices).contains_key(id) implies managed(
        registered(registry, devices)[id],
    ) && registered(registry, devices)[id].id == id by {
        if names(devices, id) {
        } else {
            assert(registry.contains_key(id));
        }
    }
}

/// After a registry was brought up to date with a scan it holds exactly the
/// ids that the scan offers: under an id that was registered before what was
/// registered, and under a new id a managed device of the scan with that id.
pub proof fn lemma_synced_entries(registry: Map<u128, HidDevice>, scan: Seq<HidDevice>)
    ensures
        synced(registry, scan).dom() == managed_ids(scan),
        forall|id: u128|
            offers(scan, id) && registry.contains_key(id) ==> #[trigger] synced(registry, scan)[id]
                == registry[id],
        forall|id: u128|
            offers(scan, id) && !registry.contains_key(id) ==> exists|i: int|
                0 <= i < scan.len() && managed(scan[i]) && scan[i].id == id && #[trigger] scan[i]
                    == synced(registry, scan)[id],
{
    let found = arrivals(registry, scan);
    lemma_arrivals(registry, scan);
    lemma_registered_entries(registry, found);
    assert forall|id: u128| names(found, id) implies offers(scan, id) && !registry.contains_key(
        id,
    ) by {
        let i = choose|i: int| 0 <= i < found.len() && (#[trigger] found[i]).id == id;
        assert(managed(found[i]));
    }
    assert forall|id: u128| synced(registry, scan).dom().contains(id) <==> managed_ids(
        scan,
    ).contains(id) by {
        if offers(scan, id) {
            if !registry.contains_key(id) {
                assert(names(found, id));
            }
            assert(registered(registry, found).contains_key(id));
        }
    }
    assert(synced(registry, scan).dom() =~= managed_ids(scan));
    assert forall|id: u128| offers(scan, id) && !registry.contains_key(id) implies exists|i: int|
        0 <= i < scan.len() && managed(scan[i]) && scan[i].id == id && #[trigger] scan[i] == synced(
            registry,
            scan,
        )[id] by {
        assert(names(found, id));
        let j = choose|j: int|
            0 <= j < found.len() && #[trigger] found[j] == registered(registry, found)[id]
                && found[j].id == id;
        assert(found.contains(found[j]));
        scan.lemma_filter_contains_rev(is_arrival(registry), found[j]);
        let i = choose|i: int| 0 <= i < scan.len() && scan[i] == found[j];
        assert(managed(found[j]));
        assert(scan[i] == synced(registry, scan)[id]);
    }
}

/// A registry that holds managed devices only, each under its id, still does
/// so after it was seeded from a scan or brought up to date with one, whatever
/// the scan holds.
pub proof fn lemma_scans_keep_registry(registry: Map<u128, HidDevice>, scan: Seq<HidDevice>)
    requires
        well_kept(registry),
    ensures
        well_kept(seeded(registry, scan)),
        well_kept(synced(registry, scan)),
{
    lemma_managed_of(scan);
    lemma_registered_well_kept(registry, scan.filter(is_managed()));
    lemma_arrivals(registry, scan);
    lemma_registered_well_kept(registry, arrivals(registry, scan));
    assert(well_kept(synced(registry, scan)));
}

/// No device of another usage page gets into the registry: a device of the
/// scan that is not managed is registered after the registry was seeded from
/// the scan, or brought up to date with it, only where it was registered
/// before.
pub proof fn lemma_unmanaged_stay_out(
    registry: Map<u128, HidDevice>,
    scan: Seq<HidDevice>,
    i: int,
    id: u128,
)
    requires
        0 <= i < scan.len(),
        !managed(scan[i]),
    ensures
        seeded(registry, scan).contains_pair(id, scan[i]) ==> registry.contains_pair(id, scan[i]),
        synced(registry, scan).contains_pair(id, scan[i]) ==> registry.contains_pair(id, scan[i]),
{
    lemma_managed_of(scan);
    lemma_arrivals(registry, scan);
    lemma_registered_entries(registry, scan.filter(is_managed()));
    lemma_registered_entries(registry, arrivals(registry, scan));
}

/// A registry that holds exactly the ids that a scan offers is settled: to
/// bring it up to date with that scan adds nothing, removes nothing and
/// changes nothing.
pub proof fn lemma_settled(registry: Map<u128, HidDevice>, scan: Seq<HidDevice>)
    requires
        registry.dom() == managed_ids(scan),
    ensures
        arrivals(registry, scan) == Seq::<HidDevice>::empty(),
        departed(registry, scan) == Map::<u128, HidDevice>::empty(),
        synced(registry, scan) == registry,
{
    lemma_arrivals(registry, scan);
    let found = arrivals(registry, scan);
    if found.len() > 0 {
        assert(managed(found[0]) && offers(scan, found[0].id));
        assert(managed_ids(scan).contains(found[0].id));
    }
    assert(found =~= Seq::<HidDevice>::empty());
    assert(departed(registry, scan) =~= Map::<u128, HidDevice>::empty());
    assert(synced(registry, scan) =~= registry);
}

/// Bringing a registry up to date twice with the same scan: the second pass
/// leaves the registry as the first left it and announces nothing, in
/// whatever order `keys` it would walk what it removes.
pub proof fn lemma_second_pass_changes_nothing(
    registry: Map<u128, HidDevice>,
    scan: Seq<HidDevice>,
    keys: Seq<u128>,
)
    requires
        arranges(keys, departed(synced(registry, scan), scan)),
    ensures
        synced(synced(registry, scan), scan) == synced(registry, scan),
        arrival_events(arrivals(synced(registry, scan), scan)) + departure_events(
            keys,
            synced(registry, scan),
        ) == Seq::<CentralEvent>::empty(),
{
    let first = synced(registry, scan);
    lemma_synced_entries(registry, scan);
    lemma_settled(first, scan);
    if keys.len() > 0 {
        assert(keys.contains(keys[0]));
    }
    assert(arrival_events(arrivals(first, scan)) + departure_events(keys, first)
        =~= Seq::<CentralEvent>::empty());
}

/// What a pass announces is what it did: a device announced as added has an
/// id that was not registered before the pass and is registered after it, and
/// what is announced as removed was registered before the pass under an id
/// that is not registered after it. So no id is announced as added by two
/// passes unless a pass between them announced it as removed.
pub proof fn lemma_announced_changes(registry: Map<u128, HidDevice>, scan: Seq<HidDevice>)
    ensures
        forall|i: int|
            0 <= i < arrivals(registry, scan).len() ==> !registry.contains_key(
                (#[trigger] arrivals(registry, scan)[i]).id,
            ) && synced(registry, scan).contains_key(arrivals(registry, scan)[i].id),
        forall|id: u128| #[trigger]
            departed(registry, scan).contains_key(id) ==> registry.contains_key(id) && !synced(
                registry,
                scan,
            ).contains_key(id) && departed(registry, scan)[id] == registry[id],
{
    lemma_arrivals(registry, scan);
    lemma_synced_entries(registry, scan);
    assert forall|i: int| 0 <= i < arrivals(registry, scan).len() implies synced(
        registry,
        scan,
    ).contains_key((#[trigger] arrivals(registry, scan)[i]).id) by {
        assert(managed_ids(scan).contains(arrivals(registry, scan)[i].id));
    }
}

/// Whether `id` is among `ids`.
fn holds_id(ids: &Vec<u128>, id: u128) -> (held: bool)
    ensures
        held == ids@.contains(id),
{
    let mut i: usize = 0;
    while i < ids.len()
        invariant
            i <= ids@.len(),
            forall|j: int| 0 <= j < i ==> ids@[j] != id,
        decreases ids@.len() - i,
    {
        if ids[i] == id {
            return true;
        }
        i = i + 1;
    }
    false
}

/// The registry of the managed devices, kept in step with what is attached.
pub struct Adapter {
    manager: Manager,
}

impl View for Adapter {
    type V = Map<u128, HidDevice>;

    /// The registry: each registered id with its descriptor.
    closed spec fn view(&self) -> Map<u128, HidDevice> {
        self.manager@
    }
}

impl Adapter {
    /// An adapter with nothing registered.
    pub fn new() -> (adapter: Self)
        ensures
            adapter@ == Map::<u128, HidDevice>::empty(),
            well_kept(adapter@),
    {
        Adapter { manager: Manager::new() }
    }

    /// Seeds the registry from the first scan: every managed device of the
    /// scan is registered under its id. A scan that failed is handed back as
    /// the error, and nothing is registered.
    pub fn start(&mut self, scan: Result<Vec<HidDevice>, Error>) -> (started: Result<(), Error>)
        ensures
            scan is Ok ==> started is Ok && final(self)@ == seeded(old(self)@, scan->Ok_0@),
            scan is Err ==> started == Err::<(), Error>(scan->Err_0) && final(self)@ == old(self)@,
            well_kept(old(self)@) ==> well_kept(final(self)@),
    {
        let devices = match scan {
            Ok(devices) => devices,
            Err(error) => {
                return Err(error);
            },
        };
        let ghost before = self.manager@;
        let mut i: usize = 0;
        proof {
            devices@.take(0).lemma_filter_len(is_managed());
        }
        while i < devices.len()
            invariant
                i <= devices@.len(),
                self.manager@ == registered(before, devices@.take(i as int).filter(is_managed())),
            decreases devices@.len() - i,
        {
            proof {
                lemma_filter_next(devices@, is_managed(), i as int);
                lemma_registered_push(
                    before,
                    devices@.take(i as int).filter(is_managed()),
                    devices@[i as int],
                );
            }
            if devices[i].usage_page == MANAGED_USAGE_PAGE {
                let item = devices[i].clone();
                let _ = self.manager.add_devices(item.id, item);
            }
            i = i + 1;
        }
        proof {
            assert(devices@.take(devices@.len() as int) =~= devices@);
            if well_kept(before) {
                lemma_scans_keep_registry(before, devices@);
            }
        }
        Ok(())
    }

    /// Whether `handle` belongs to the channel on which this adapter's
    /// changes are announced.
    pub closed spec fn listens(&self, handle: Receiver<CentralEvent>) -> bool {
        self.manager.listens(handle)
    }

    /// A handle on the channel on which changes to the registry are
    /// announced. All handles share one queue: an event goes to one of them,
    /// not to each.
    pub fn events(&self) -> (handle: Result<Receiver<CentralEvent>, Error>)
        ensures
            handle is Ok,
            self.listens(handle->Ok_0),
    {
        Ok(self.manager.event_channel())
    }

    /// A copy of every registered descriptor, in no particular order. In a
    /// registry of managed devices all of them are managed.
    pub fn peripherals(&self) -> (listed: Result<Vec<HidDevice>, Error>)
        ensures
            listed matches Ok(devices) && (exists|keys: Seq<u128>|
                arranges(keys, self@) && devices@ == values_at(keys, self@)) && (well_kept(self@)
                ==> forall|i: int| 0 <= i < devices@.len() ==> managed(#[trigger] devices@[i])),
    {
        let devices = self.manager.devices();
        proof {
            let keys = choose|keys: Seq<u128>|
                arranges(keys, self@) && devices@ == values_at(keys, self@);
            assert forall|i: int| well_kept(self@) && 0 <= i < devices@.len() implies managed(
                #[trigger] devices@[i],
            ) by {
                assert(keys.contains(keys[i]));
            }
        }
        Ok(devices)
    }

    /// A copy of the descriptor registered under `id`, or `NotFound`.
    pub fn peripheral(&self, id: &u128) -> (found: Result<HidDevice, Error>)
        ensures
            self@.contains_key(*id) ==> found == Ok::<HidDevice, Error>(self@[*id]),
            !self@.contains_key(*id) ==> found == Err::<HidDevice, Error>(Error::NotFound),
            well_kept(self@) ==> (found matches Ok(device) ==> managed(device) && device.id == *id),
    {
        match self.manager.device(id) {
            Some(device) => Ok(device),
            None => Err(Error::NotFound),
        }
    }

    /// Brings the registry up to date with `scan` and says what changed.
    ///
    /// The managed devices of the scan whose ids are not registered are
    /// registered, in the order of the scan, and announced as added. Then what
    /// is registered under an id that no managed device of the scan has is
    /// taken out and announced as removed, with its descriptor, in no
    /// particular order.
    pub fn synchronize(manager: &mut Manager, scan: &Vec<HidDevice>) -> (events: Vec<CentralEvent>)
        ensures
            final(manager)@ == synced(old(manager)@, scan@),
            exists|keys: Seq<u128>|
                arranges(keys, departed(old(manager)@, scan@)) && events@ == arrival_events(
                    arrivals(old(manager)@, scan@),
                ) + departure_events(keys, old(manager)@),
    {
        let ghost before = manager@;
        let mut added: Vec<HidDevice> = Vec::new();
        let mut i: usize = 0;
        proof {
            scan@.take(0).lemma_filter_len(is_arrival(before));
        }
        while i < scan.len()
            invariant
                i <= scan@.len(),
                manager@ == before,
                added@ == arrivals(before, scan@.take(i as int)),
            decreases scan@.len() - i,
        {
            proof {
                lemma_filter_next(scan@, is_arrival(before), i as int);
            }
            if scan[i].usage_page == MANAGED_USAGE_PAGE && !manager.contains_device(scan[i].id) {
                added.push(scan[i].clone());
            }
            i = i + 1;
        }
        assert(scan@.take(scan@.len() as int) =~= scan@);

        let mut events: Vec<CentralEvent> = Vec::new();
        let mut j: usize = 0;
        while j < added.len()
            invariant
                j <= added@.len(),
                manager@ == registered(before, added@.take(j as int)),
                events@ == arrival_events(added@.take(j as int)),
            decreases added@.len() - j,
        {
            proof {
                lemma_registered_next(before, added@, j as int);
            }
            let item = added[j].clone();
            let id = item.id;
            let _ = manager.add_devices(id, item);
            events.push(CentralEvent::DeviceAdd(id));
            assert(events@ =~= arrival_events(added@.take(j + 1)));
            j = j + 1;
        }
        assert(added@.take(added@.len() as int) =~= added@);

        let mut new_key: Vec<u128> = Vec::new();
        let mut k: usize = 0;
        while k < scan.len()
            invariant
                k <= scan@.len(),
                forall|id: u128| new_key@.contains(id) <==> offers(scan@.take(k as int), id),
            decreases scan@.len() - k,
        {
            let ghost earlier = new_key@;
            if scan[k].usage_page == MANAGED_USAGE_PAGE {
                new_key.push(scan[k].id);
            }
            proof {
                let shorter = scan@.take(k as int);
                let longer = scan@.take(k + 1);
                assert forall|id: u128| new_key@.contains(id) <==> offers(longer, id) by {
                    if new_key@.contains(id) {
                        let m = choose|m: int| 0 <= m < new_key@.len() && new_key@[m] == id;
                        if m < earlier.len() {
                            assert(earlier[m] == id);
                            assert(earlier.contains(id));
                            let n = choose|n: int|
                                0 <= n < shorter.len() && managed(shorter[n]) && (
                                #[trigger] shorter[n]).id == id;
                            assert(managed(longer[n]) && longer[n].id == id);
                        } else {
                            assert(managed(longer[k as int]) && longer[k as int].id == id);
                        }
                    }
                    if offers(longer, id) {
                        let n = choose|n: int|
                            0 <= n < longer.len() && managed(longer[n]) && (#[trigger] longer[n]).id
                                == id;
                        if n < k {
                            assert(managed(shorter[n]) && shorter[n].id == id);
                            assert(earlier.contains(id));
                            let m = choose|m: int| 0 <= m < earlier.len() && earlier[m] == id;
                            assert(new_key@[m] == id);
                        } else {
                            assert(new_key@[new_key@.len() - 1] == id);
                        }
                    }
                }
            }
            k = k + 1;
        }
        assert(scan@.take(scan@.len() as int) =~= scan@);

        let current_keys = manager.device_keys();
        let ghost found = arrivals(before, scan@);
        let ghost grown = manager@;
        let ghost mut gone: Seq<u128> = Seq::empty();
        proof {
            lemma_arrivals(before, scan@);
            lemma_registered_entries(before, found);
            assert(manager@ =~= grown.remove_keys(gone.to_set()));
            assert(events@ =~= arrival_events(found) + departure_events(gone, before));
        }
        let mut n: usize = 0;
        while n < current_keys.len()
            invariant
                n <= current_keys@.len(),
                arranges(current_keys@, grown),
                grown == registered(before, found),
                found == arrivals(before, scan@),
                forall|id: u128| new_key@.contains(id) <==> offers(scan@, id),
                forall|id: u128| names(found, id) ==> offers(scan@, id),
                forall|id: u128| #[trigger]
                    grown.contains_key(id) <==> before.contains_key(id) || names(found, id),
                forall|id: u128|
                    !names(found, id) && before.contains_key(id) ==> #[trigger] grown[id]
                        == before[id],
                manager@ == grown.remove_keys(gone.to_set()),
                gone.no_duplicates(),
                forall|id: u128|
                    gone.contains(id) <==> current_keys@.take(n as int).contains(id) && !offers(
                        scan@,
                        id,
                    ),
                events@ == arrival_events(found) + departure_events(gone, before),
            decreases current_keys@.len() - n,
        {
            let key = current_keys[n];
            let ghost earlier = gone;
            let ghost seen = current_keys@.take(n as int);
            proof {
                assert(current_keys@.take(n + 1) =~= seen.push(key));
                assert(current_keys@.contains(key));
                if seen.contains(key) {
                    let m = choose|m: int| 0 <= m < seen.len() && seen[m] == key;
                    assert(current_keys@[m] == current_keys@[n as int]);
                }
            }
            if !holds_id(&new_key, key) {
                assert(!gone.contains(key));
                assert(manager@.contains_key(key));
                match manager.remove_device(key) {
                    Some((_, device)) => {
                        events.push(CentralEvent::DeviceRemove(device));
                        proof {
                            gone = earlier.push(key);
                            lemma_pushed_ids(earlier, key);
                            assert(manager@ =~= grown.remove_keys(gone.to_set()));
                            assert(events@ =~= arrival_events(found) + departure_events(
                                gone,
                                before,
                            ));
                        }
                    },
                    None => {},
                }
            }
            proof {
                let now = current_keys@.take(n + 1);
                lemma_pushed_ids(seen, key);
                lemma_pushed_ids(earlier, key);
                assert forall|id: u128|
                    gone.contains(id) <==> now.contains(id) && !offers(scan@, id) by {
                    assert(now.contains(id) <==> seen.contains(id) || id == key);
                    assert(earlier.contains(id) <==> seen.contains(id) && !offers(scan@, id));
                }
            }
            n = n + 1;
        }
        proof {
            assert(current_keys@.take(current_keys@.len() as int) =~= current_keys@);
            assert(manager@ =~= synced(before, scan@));
            assert(arranges(gone, departed(before, scan@)));
        }
        events
    }

    /// One pass for a notice that the attached devices may have changed: the
    /// registry is brought up to date with `scan` and every change is put on
    /// the event channel, the additions first. The events that were put there
    /// are handed back, in their order. A scan that failed is handed back as
    /// the error, and nothing changes.
    pub fn usb_device_change(&mut self, scan: Result<Vec<HidDevice>, Error>) -> (done: Result<
        Vec<CentralEvent>,
        Error,
    >)
        ensures
            scan is Ok ==> done is Ok && final(self)@ == synced(old(self)@, scan->Ok_0@),
            scan is Ok ==> exists|keys: Seq<u128>|
                arranges(keys, departed(old(self)@, scan->Ok_0@)) && done->Ok_0@ == arrival_events(
                    arrivals(old(self)@, scan->Ok_0@),
                ) + departure_events(keys, old(self)@),
            scan is Err ==> done == Err::<Vec<CentralEvent>, Error>(scan->Err_0) && final(self)@
                == old(self)@,
            well_kept(old(self)@) ==> well_kept(final(self)@),
    {
        let current_device = match scan {
            Ok(devices) => devices,
            Err(error) => {
                return Err(error);
            },
        };
        proof {
            if well_kept(self.manager@) {
                lemma_scans_keep_registry(self.manager@, current_device@);
            }
        }
        let ghost before = self.manager@;
        let events = Adapter::synchronize(&mut self.manager, &current_device);
        let ghost keys = choose|keys: Seq<u128>|
            arranges(keys, departed(before, current_device@)) && events@ == arrival_events(
                arrivals(before, current_device@),
            ) + departure_events(keys, before);
        let mut i: usize = 0;
        while i < events.len()
            invariant
                i <= events@.len(),
            decreases events@.len() - i,
        {
            self.manager.emit(events[i].clone());
            i = i + 1;
        }
        assert(arranges(keys, departed(old(self)@, scan->Ok_0@)) && events@ == arrival_events(
            arrivals(old(self)@, scan->Ok_0@),
        ) + departure_events(keys, old(self)@));
        Ok(events)
    }
}

} // verus!
