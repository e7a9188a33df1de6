//! What the library makes of Monado's answers: devices grouped by tracking
//! origin, battery readings applied to those groups, and origin lookup.  The
//! IPC calls themselves are made outside the library, which hands their
//! results in as plain values.

use vstd::prelude::*;
use crate::error::MonadoError;
use crate::ui::device_selector::{Category, CategoryView, Device, DeviceView, FloatBits};

verus! {

/// A tracking origin as Monado lists it.
#[derive(Clone, Debug)]
pub struct TrackingOrigin {
    pub id: u32,
    pub name: String,
}

/// A device's battery report.
#[derive(Clone, Copy, Debug, PartialEq, Eq, Structural)]
pub struct BatteryStatus {
    pub present: bool,
    /// Charge fraction (0.0 to 1.0).
    pub charge: FloatBits,
    pub charging: bool,
}

/// One device as Monado lists it.
#[derive(Clone, Debug)]
pub struct DeviceReading {
    pub name: String,
    /// `None` when the serial could not be read.
    pub serial: Option<String>,
    /// The tracking-origin property; `None` when it could not be read.
    pub origin: Option<u32>,
    pub index: u32,
    /// `None` when the battery query failed.
    pub battery: Option<BatteryStatus>,
}

/// A reading as plain values.
pub struct DeviceReadingView {
    pub name: Seq<char>,
    pub serial: Option<Seq<char>>,
    pub origin: Option<u32>,
    pub index: u32,
    pub battery: Option<BatteryStatus>,
}

impl View for DeviceReading {
    type V = DeviceReadingView;

    open spec fn view(&self) -> DeviceReadingView {
        DeviceReadingView {
            name: self.name@,
            serial: match self.serial {
                Some(s) => Some(s@),
                None => None,
            },
            origin: self.origin,
            index: self.index,
            battery: self.battery,
        }
    }
}

/// The categories devices are sorted into: one per origin, in Monado's
/// order, or a single "Default" category (identifier 0) when there is none.
pub open spec fn base_categories(origins: Seq<TrackingOrigin>) -> Seq<(u32, Seq<char>)> {
    if origins.len() == 0 {
        seq![(0u32, "Default"@)]
    } else {
        origins.map_values(|o: TrackingOrigin| (o.id, o.name@))
    }
}

/// Position of the first category at or after `from` with identifier `id`,
/// or 0 when none has it.
pub open spec fn first_slot_from(base: Seq<(u32, Seq<char>)>, id: u32, from: int) -> int
    decreases base.len() - from,
{
    if from < 0 || from >= base.len() {
        0
    } else if base[from].0 == id {
        from
    } else {
        first_slot_from(base, id, from + 1)
    }
}

/// Position of the first category with identifier `id`, or 0 when none has it.
pub open spec fn slot_of(base: Seq<(u32, Seq<char>)>, id: u32) -> int {
    first_slot_from(base, id, 0)
}

/// The origin identifier a reading is filed under (0 when unreadable).
pub open spec fn origin_of(r: DeviceReadingView) -> u32 {
    match r.origin {
        Some(o) => o,
        None => 0,
    }
}

/// The device record made from a reading.
pub open spec fn device_from_reading(base: Seq<(u32, Seq<char>)>, r: DeviceReadingView) -> DeviceView {
    let k = slot_of(base, origin_of(r));
    let (charge, charging) = match r.battery {
        Some(b) => if b.present { (Some(b.charge), b.charging) } else { (None, false) },
        None => (None, false),
    };
    DeviceView {
        name: r.name,
        serial: match r.serial {
            Some(s) => s,
            None => Seq::empty(),
        },
        description: Seq::empty(),
        category: base[k].1,
        category_index: base[k].0,
        device_index: r.index,
        battery_charge: charge,
        battery_charging: charging,
    }
}

/// The devices of each category after filing `readings` in order.
pub open spec fn grouped(base: Seq<(u32, Seq<char>)>, readings: Seq<DeviceReadingView>) -> Seq<Seq<DeviceView>>
    decreases readings.len(),
{
    if readings.len() == 0 {
        Seq::new(base.len(), |k: int| Seq::<DeviceView>::empty())
    } else {
        let g = grouped(base, readings.drop_last());
        let d = device_from_reading(base, readings.last());
        let k = slot_of(base, origin_of(readings.last()));
        g.update(k, g[k].push(d))
    }
}

proof fn lemma_first_slot_from(base: Seq<(u32, Seq<char>)>, id: u32, from: int)
    requires
        0 <= from <= base.len(),
    ensures
        (exists|k: int| from <= k < base.len() && #[trigger] base[k].0 == id) ==> {
            &&& from <= first_slot_from(base, id, from) < base.len()
            &&& base[first_slot_from(base, id, from)].0 == id
            &&& forall|j: int| from <= j < first_slot_from(base, id, from) ==> #[trigger] base[j].0 != id
        },
        !(exists|k: int| from <= k < base.len() && #[trigger] base[k].0 == id) ==> first_slot_from(base, id, from) == 0,
    decreases base.len() - from,
{
    if from < base.len() {
        lemma_first_slot_from(base, id, from + 1);
        if base[from].0 != id {
            if exists|k: int| from <= k < base.len() && #[trigger] base[k].0 == id {
                let k = choose|k: int| from <= k < base.len() && #[trigger] base[k].0 == id;
                assert(from + 1 <= k);
            }
        }
    }
}

/// The slot is the first category with the identifier, if any has it, and
/// the first category otherwise.
pub proof fn lemma_slot_of(base: Seq<(u32, Seq<char>)>, id: u32)
    ensures
        base.len() > 0 ==> 0 <= slot_of(base, id) < base.len(),
        (exists|k: int| 0 <= k < base.len() && #[trigger] base[k].0 == id) ==> {
            &&& base[slot_of(base, id)].0 == id
            &&& forall|j: int| 0 <= j < slot_of(base, id) ==> #[trigger] base[j].0 != id
        },
        !(exists|k: int| 0 <= k < base.len() && #[trigger] base[k].0 == id) ==> slot_of(base, id) == 0,
{
    lemma_first_slot_from(base, id, 0);
}

/// Filing keeps one group per category.
pub proof fn lemma_grouped_len(base: Seq<(u32, Seq<char>)>, readings: Seq<DeviceReadingView>)
    requires
        base.len() > 0,
    ensures
        grouped(base, readings).len() == base.len(),
    decreases readings.len(),
{
    if readings.len() > 0 {
        lemma_grouped_len(base, readings.drop_last());
        lemma_slot_of(base, origin_of(readings.last()));
    }
}

/// Position of the category a device with origin `id` belongs to.
fn find_slot(categories: &Vec<Category>, id: u32, Ghost(base): Ghost<Seq<(u32, Seq<char>)>>) -> (k: usize)
    requires
        categories.len() == base.len(),
        base.len() > 0,
        forall|j: int| 0 <= j < base.len() ==> (#[trigger] categories@[j]).index == base[j].0,
    ensures
        k as int == slot_of(base, id),
{
    proof { lemma_slot_of(base, id); }
    let mut i: usize = 0;
    while i < categories.len()
        invariant
            i <= categories.len(),
            categories.len() == base.len(),
            forall|j: int| 0 <= j < base.len() ==> (#[trigger] categories@[j]).index == base[j].0,
            forall|j: int| 0 <= j < i ==> #[trigger] base[j].0 != id,
            slot_of(base, id) == first_slot_from(base, id, i as int),
        decreases categories.len() - i,
    {
        if categories[i].index == id {
            return i;
        }
        i = i + 1;
    }
    0
}

/// Sorts the devices Monado lists into categories by tracking origin.  A
/// device whose origin is unknown, or matches no listed origin, goes into
/// the first category.
pub fn group_devices(origins: Vec<TrackingOrigin>, readings: Vec<DeviceReading>) -> (categories: Vec<Category>)
    ensures
        categories.len() == base_categories(origins@).len(),
        forall|k: int| #![trigger categories@[k]] 0 <= k < categories.len() ==> {
            &&& categories@[k].index == base_categories(origins@)[k].0
            &&& categories@[k].name@ == base_categories(origins@)[k].1
            &&& categories@[k]@.devices == grouped(
                base_categories(origins@),
                readings@.map_values(|r: DeviceReading| r@),
            )[k]
        },
        forall|k: int, i: int| #![trigger categories@[k].devices@[i]]
            0 <= k < categories.len() && 0 <= i < categories@[k].devices.len() ==> exists|j: int|
                #![trigger readings@[j]]
                0 <= j < readings.len() && {
                    let d = categories@[k].devices@[i];
                    let r = readings@[j];
                    &&& d.name@ == r.name@
                    &&& d.device_index == r.index
                    &&& d.serial@ == (match r.serial { Some(x) => x@, None => Seq::<char>::empty() })
                    &&& (match r.battery {
                        Some(b) => if b.present {
                            d.battery_charge == Some(b.charge) && d.battery_charging == b.charging
                        } else {
                            d.battery_charge is None && !d.battery_charging
                        },
                        None => d.battery_charge is None && !d.battery_charging,
                    })
                },
{
    let ghost base = base_categories(origins@);
    let ghost rs = readings@.map_values(|r: DeviceReading| r@);
    let mut categories: Vec<Category> = Vec::new();
    let mut i: usize = 0;
    while i < origins.len()
        invariant
            i <= origins.len(),
            categories.len() == i,
            forall|k: int| #![trigger categories@[k]] 0 <= k < i ==> {
                &&& categories@[k].index == origins@[k].id
                &&& categories@[k].name@ == origins@[k].name@
                &&& categories@[k].devices@.len() == 0
            },
        decreases origins.len() - i,
    {
        categories.push(Category { index: origins[i].id, name: origins[i].name.clone(), devices: Vec::new() });
        i = i + 1;
    }
    if categories.len() == 0 {
        categories.push(Category { index: 0, name: "Default".to_owned(), devices: Vec::new() });
    }
    proof {
        assert forall|k: int| 0 <= k < categories.len() implies
            (#[trigger] categories@[k])@.devices == grouped(base, rs.take(0))[k] by {
            assert(rs.take(0).len() == 0);
            assert(categories@[k]@.devices =~= Seq::<DeviceView>::empty());
        }
    }
    let mut j: usize = 0;
    while j < readings.len()
        invariant
            j <= readings.len(),
            base == base_categories(origins@),
            rs == readings@.map_values(|r: DeviceReading| r@),
            categories.len() == base.len(),
            base.len() > 0,
            forall|k: int| #![trigger categories@[k]] 0 <= k < categories.len() ==> {
                &&& categories@[k].index == base[k].0
                &&& categories@[k].name@ == base[k].1
                &&& categories@[k]@.devices == grouped(base, rs.take(j as int))[k]
            },
        decreases readings.len() - j,
    {
        let r = &readings[j];
        let origin_index = match r.origin {
            Some(o) => o,
            None => 0,
        };
        let k = find_slot(&categories, origin_index, Ghost(base));
        proof { lemma_slot_of(base, origin_index); }
        let serial = match &r.serial {
            Some(s) => s.clone(),
            None => String::new(),
        };
        let (charge, charging) = match r.battery {
            Some(b) => if b.present { (Some(b.charge), b.charging) } else { (None, false) },
            None => (None, false),
        };
        let dev = Device {
            name: r.name.clone(),
            serial,
            description: String::new(),
            category: categories[k].name.clone(),
            category_index: categories[k].index,
            device_index: r.index,
            battery_charge: charge,
            battery_charging: charging,
        };
        let ghost before = categories@;
        let ghost dv = dev@;
        let ghost d0 = dev;
        proof {
            assert(rs.take(j as int + 1).drop_last() =~= rs.take(j as int));
            assert(rs.take(j as int + 1).last() == r@);
            assert(dev@ == device_from_reading(base, r@));
        }
        categories[k].devices.push(dev);
        proof {
            let g = grouped(base, rs.take(j as int));
            let g2 = grouped(base, rs.take(j as int + 1));
            lemma_grouped_len(base, rs.take(j as int));
            assert(g2 == g.update(k as int, g[k as int].push(dv)));
            assert(before[k as int]@.devices == g[k as int]);
            assert forall|m: int| #![trigger categories@[m]] 0 <= m < categories.len() implies {
                &&& categories@[m].index == base[m].0
                &&& categories@[m].name@ == base[m].1
                &&& categories@[m]@.devices == g2[m]
            } by {
                if m == k as int {
                    assert(categories@[m].devices@ == before[m].devices@.push(d0));
                    assert(categories@[m]@.devices =~= before[m]@.devices.push(dv));
                    assert(categories@[m].index == before[m].index);
                    assert(categories@[m].name == before[m].name);
                    assert(g2[m] == g[m].push(dv));
                } else {
                    assert(categories@[m] == before[m]);
                    assert(g2[m] == g[m]);
                    assert(before[m]@.devices == g[m]);
                }
            }
        }
        j = j + 1;
    }
    proof {
        assert(rs.take(readings.len() as int) =~= rs);
        assert forall|k: int, i: int| #![trigger categories@[k].devices@[i]]
            0 <= k < categories.len() && 0 <= i < categories@[k].devices.len() implies exists|j: int|
                #![trigger readings@[j]]
                0 <= j < readings.len() && {
                    let d = categories@[k].devices@[i];
                    let r = readings@[j];
                    &&& d.name@ == r.name@
                    &&& d.device_index == r.index
                    &&& d.serial@ == (match r.serial { Some(x) => x@, None => Seq::<char>::empty() })
                    &&& (match r.battery {
                        Some(b) => if b.present {
                            d.battery_charge == Some(b.charge) && d.battery_charging == b.charging
                        } else {
                            d.battery_charge is None && !d.battery_charging
                        },
                        None => d.battery_charge is None && !d.battery_charging,
                    })
                } by {
            assert(categories@[k]@.devices[i] == categories@[k].devices@[i]@);
            lemma_grouped_devices_carry_their_reading(origins@, rs, k, i);
            let dv = grouped(base, rs)[k][i];
            let j = choose|j: int| 0 <= j < rs.len() && {
                let r = #[trigger] rs[j];
                &&& dv.name == r.name
                &&& dv.device_index == r.index
                &&& dv.serial == (match r.serial { Some(x) => x, None => Seq::<char>::empty() })
                &&& (match r.battery {
                    Some(b) => if b.present {
                        dv.battery_charge == Some(b.charge) && dv.battery_charging == b.charging
                    } else {
                        dv.battery_charge is None && !dv.battery_charging
                    },
                    None => dv.battery_charge is None && !dv.battery_charging,
                })
            };
            assert(rs[j] == readings@[j]@);
        }
    }
    categories
}


/// Number of devices over all groups.
pub open spec fn total_devices(g: Seq<Seq<DeviceView>>) -> nat
    decreases g.len(),
{
    if g.len() == 0 {
        0
    } else {
        total_devices(g.drop_last()) + g.last().len()
    }
}

proof fn lemma_total_after_push(g: Seq<Seq<DeviceView>>, k: int, d: DeviceView)
    requires
        0 <= k < g.len(),
    ensures
        total_devices(g.update(k, g[k].push(d))) == total_devices(g) + 1,
    decreases g.len(),
{
    let h = g.update(k, g[k].push(d));
    if k == g.len() - 1 {
        assert(h.drop_last() =~= g.drop_last());
    } else {
        lemma_total_after_push(g.drop_last(), k, d);
        assert(h.drop_last() =~= g.drop_last().update(k, g.drop_last()[k].push(d)));
    }
}

proof fn lemma_total_empty_groups(n: nat)
    ensures
        total_devices(Seq::new(n, |k: int| Seq::<DeviceView>::empty())) == 0,
    decreases n,
{
    if n > 0 {
        lemma_total_empty_groups((n - 1) as nat);
        assert(Seq::new(n, |k: int| Seq::<DeviceView>::empty()).drop_last()
            =~= Seq::new((n - 1) as nat, |k: int| Seq::<DeviceView>::empty()));
    }
}

/// Law: grouping files every device exactly once; no device is lost or
/// duplicated.
pub proof fn lemma_grouping_keeps_every_device(origins: Seq<TrackingOrigin>, readings: Seq<DeviceReadingView>)
    ensures
        total_devices(grouped(base_categories(origins), readings)) == readings.len(),
    decreases readings.len(),
{
    let base = base_categories(origins);
    if readings.len() == 0 {
        lemma_total_empty_groups(base.len());
    } else {
        lemma_grouping_keeps_every_device(origins, readings.drop_last());
        lemma_grouped_len(base, readings.drop_last());
        lemma_slot_of(base, origin_of(readings.last()));
        let g = grouped(base, readings.drop_last());
        let k = slot_of(base, origin_of(readings.last()));
        lemma_total_after_push(g, k, device_from_reading(base, readings.last()));
    }
}

/// Law: every device in a category names that category and its origin
/// identifier.
pub proof fn lemma_grouped_devices_name_their_category(
    origins: Seq<TrackingOrigin>,
    readings: Seq<DeviceReadingView>,
    k: int,
    i: int,
)
    requires
        0 <= k < base_categories(origins).len(),
        0 <= i < grouped(base_categories(origins), readings)[k].len(),
    ensures
        grouped(base_categories(origins), readings)[k][i].category_index == base_categories(origins)[k].0,
        grouped(base_categories(origins), readings)[k][i].category == base_categories(origins)[k].1,
    decreases readings.len(),
{
    let base = base_categories(origins);
    if readings.len() > 0 {
        lemma_grouped_len(base, readings.drop_last());
        let g = grouped(base, readings.drop_last());
        let slot = slot_of(base, origin_of(readings.last()));
        lemma_slot_of(base, origin_of(readings.last()));
        if k == slot && i == g[k].len() {
        } else {
            lemma_grouped_devices_name_their_category(origins, readings.drop_last(), k, i);
        }
    } else {
        assert(grouped(base, readings)[k].len() == 0);
    }
}

/// Law: every device filed in a category comes from one of the readings and
/// carries that reading's name, index and serial (empty when unreadable);
/// its charge and charging flag are the reading's when a battery is
/// present, and none and false otherwise.
pub proof fn lemma_grouped_devices_carry_their_reading(
    origins: Seq<TrackingOrigin>,
    readings: Seq<DeviceReadingView>,
    k: int,
    i: int,
)
    requires
        0 <= k < base_categories(origins).len(),
        0 <= i < grouped(base_categories(origins), readings)[k].len(),
    ensures
        exists|j: int| 0 <= j < readings.len() && {
            let d = grouped(base_categories(origins), readings)[k][i];
            let r = #[trigger] readings[j];
            &&& d.name == r.name
            &&& d.device_index == r.index
            &&& d.serial == (match r.serial { Some(s) => s, None => Seq::<char>::empty() })
            &&& (match r.battery {
                Some(b) => if b.present {
                    d.battery_charge == Some(b.charge) && d.battery_charging == b.charging
                } else {
                    d.battery_charge is None && !d.battery_charging
                },
                None => d.battery_charge is None && !d.battery_charging,
            })
        },
    decreases readings.len(),
{
    let base = base_categories(origins);
    if readings.len() > 0 {
        let rest = readings.drop_last();
        lemma_grouped_len(base, rest);
        let g = grouped(base, rest);
        let slot = slot_of(base, origin_of(readings.last()));
        lemma_slot_of(base, origin_of(readings.last()));
        if k == slot && i == g[k].len() {
            let j = readings.len() - 1;
            assert(grouped(base, readings)[k][i] == device_from_reading(base, readings[j]));
        } else {
            lemma_grouped_devices_carry_their_reading(origins, rest, k, i);
            let d = grouped(base, readings)[k][i];
            assert(d == g[k][i]);
            let j = choose|j: int| 0 <= j < rest.len() && {
                let r = #[trigger] rest[j];
                &&& d.name == r.name
                &&& d.device_index == r.index
                &&& d.serial == (match r.serial { Some(s) => s, None => Seq::<char>::empty() })
                &&& (match r.battery {
                    Some(b) => if b.present {
                        d.battery_charge == Some(b.charge) && d.battery_charging == b.charging
                    } else {
                        d.battery_charge is None && !d.battery_charging
                    },
                    None => d.battery_charge is None && !d.battery_charging,
                })
            };
            assert(rest[j] == readings[j]);
        }
    } else {
        assert(grouped(base, readings)[k].len() == 0);
    }
}

/// Law: a device whose tracking origin is listed is filed under the first
/// category with that origin's identifier.
pub proof fn lemma_device_lands_in_its_origin(origins: Seq<TrackingOrigin>, r: DeviceReadingView)
    requires
        exists|k: int| 0 <= k < base_categories(origins).len() && #[trigger] base_categories(origins)[k].0 == origin_of(r),
    ensures
        device_from_reading(base_categories(origins), r).category_index == origin_of(r),
        forall|j: int| 0 <= j < slot_of(base_categories(origins), origin_of(r))
            ==> #[trigger] base_categories(origins)[j].0 != origin_of(r),
{
    lemma_slot_of(base_categories(origins), origin_of(r));
}

/// The charge and charging flag a battery query gave for device `idx`: the
/// last successful report with a battery present, or none.
pub open spec fn battery_lookup(readings: Seq<(u32, Option<BatteryStatus>)>, idx: u32) -> Option<(FloatBits, bool)>
    decreases readings.len(),
{
    if readings.len() == 0 {
        None
    } else {
        match readings.last().1 {
            Some(b) => if readings.last().0 == idx && b.present {
                Some((b.charge, b.charging))
            } else {
                battery_lookup(readings.drop_last(), idx)
            },
            None => battery_lookup(readings.drop_last(), idx),
        }
    }
}

/// A device with its battery fields replaced.
pub open spec fn with_battery(d: DeviceView, b: Option<(FloatBits, bool)>) -> DeviceView {
    match b {
        Some((charge, charging)) => DeviceView { battery_charge: Some(charge), battery_charging: charging, ..d },
        None => DeviceView { battery_charge: None, battery_charging: false, ..d },
    }
}

fn battery_for(readings: &Vec<(u32, Option<BatteryStatus>)>, idx: u32) -> (r: Option<(FloatBits, bool)>)
    ensures
        r == battery_lookup(readings@, idx),
{
    let mut j: usize = readings.len();
    assert(readings@.take(j as int) =~= readings@);
    while j > 0
        invariant
            j <= readings.len(),
            battery_lookup(readings@, idx) == battery_lookup(readings@.take(j as int), idx),
        decreases j,
    {
        let (i, st) = readings[j - 1];
        proof {
            assert(readings@.take(j as int).drop_last() =~= readings@.take(j as int - 1));
        }
        match st {
            Some(b) => {
                if i == idx && b.present {
                    return Some((b.charge, b.charging));
                }
            },
            None => {},
        }
        j = j - 1;
    }
    None
}

/// Applies fresh battery readings, `(device index, query result)` in the
/// order Monado lists the devices, to every device of every category.
pub fn apply_battery_statuses(categories: &mut Vec<Category>, readings: &Vec<(u32, Option<BatteryStatus>)>)
    ensures
        final(categories).len() == old(categories).len(),
        forall|c: int| #![trigger final(categories)@[c]] 0 <= c < final(categories).len() ==> {
            &&& final(categories)@[c].index == old(categories)@[c].index
            &&& final(categories)@[c].name == old(categories)@[c].name
            &&& final(categories)@[c]@.devices == old(categories)@[c]@.devices.map_values(
                |d: DeviceView| with_battery(d, battery_lookup(readings@, d.device_index)),
            )
        },
{
    let ghost old_cats = categories@;
    let mut c: usize = 0;
    while c < categories.len()
        invariant
            c <= categories.len(),
            categories.len() == old_cats.len(),
            forall|m: int| #![trigger categories@[m]] 0 <= m < categories.len() ==> {
                &&& categories@[m].index == old_cats[m].index
                &&& categories@[m].name == old_cats[m].name
                &&& (m < c ==> categories@[m]@.devices == old_cats[m]@.devices.map_values(
                    |d: DeviceView| with_battery(d, battery_lookup(readings@, d.device_index)),
                ))
                &&& (m >= c ==> categories@[m] == old_cats[m])
            },
        decreases categories.len() - c,
    {
        let ghost before = categories@;
        let ghost devs0 = categories@[c as int].devices@;
        let mut d: usize = 0;
        while d < categories[c].devices.len()
            invariant
                c < categories.len(),
                categories.len() == before.len(),
                d <= categories@[c as int].devices.len(),
                categories@[c as int].devices.len() == devs0.len(),
                categories@[c as int].index == before[c as int].index,
                categories@[c as int].name == before[c as int].name,
                forall|m: int| 0 <= m < categories.len() && m != c ==> #[trigger] categories@[m] == before[m],
                forall|i: int| #![trigger categories@[c as int].devices@[i]] 0 <= i < devs0.len() ==>
                    (if i < d {
                        categories@[c as int].devices@[i]@ == with_battery(devs0[i]@, battery_lookup(readings@, devs0[i].device_index))
                    } else {
                        categories@[c as int].devices@[i] == devs0[i]
                    }),
            decreases devs0.len() - d,
        {
            let idx = categories[c].devices[d].device_index;
            let b = battery_for(readings, idx);
            match b {
                Some((charge, charging)) => {
                    categories[c].devices[d].battery_charge = Some(charge);
                    categories[c].devices[d].battery_charging = charging;
                },
                None => {
                    categories[c].devices[d].battery_charge = None;
                    categories[c].devices[d].battery_charging = false;
                },
            }
            d = d + 1;
        }
        proof {
            assert(categories@[c as int]@.devices =~= old_cats[c as int]@.devices.map_values(
                |dv: DeviceView| with_battery(dv, battery_lookup(readings@, dv.device_index)),
            ));
        }
        c = c + 1;
    }
}

/// Finds the tracking origin with identifier `origin_index` among the
/// identifiers Monado lists; an unknown identifier is an invalid device id.
pub fn find_origin(origin_ids: &Vec<u32>, origin_index: u32) -> (r: Result<usize, MonadoError>)
    ensures
        match r {
            Ok(i) => i < origin_ids.len() && origin_ids@[i as int] == origin_index
                && forall|j: int| 0 <= j < i ==> #[trigger] origin_ids@[j] != origin_index,
            Err(e) => e == MonadoError::InvalidDeviceId(origin_index)
                && forall|j: int| 0 <= j < origin_ids.len() ==> #[trigger] origin_ids@[j] != origin_index,
        },
{
    let mut i: usize = 0;
    while i < origin_ids.len()
        invariant
            i <= origin_ids.len(),
            forall|j: int| 0 <= j < i ==> #[trigger] origin_ids@[j] != origin_index,
        decreases origin_ids.len() - i,
    {
        if origin_ids[i] == origin_index {
            return Ok(i);
        }
        i = i + 1;
    }
    Err(MonadoError::InvalidDeviceId(origin_index))
}

} // verus!
