//! The application state behind the window: connection, device groups,
//! source and target selection, movement highlights, battery overview and
//! settings.  Persisting the settings and redrawing happen outside the
//! library after a method reports a change.

use vstd::prelude::*;
use crate::text::{chars_of, contains_chars, contains_seq, lowercase, split_words, string_from_chars, to_lowercase, words};
use crate::config::Config;
use crate::keyed::{entries_view, has_key, keys_unique, upserted, upserted_all, upsert, lemma_upserted};
use crate::ui::device_selector::{Category, CategoryView, Device, DeviceView, FloatBits, tail_cut_ok, serial_suffix_spec, serial_suffix};
use crate::xr::device_id_of;
use crate::calibration::DeviceMovement;
use crate::monado::{apply_battery_statuses, battery_lookup, with_battery, BatteryStatus};
use crate::error::MonadoError;
use crate::order::{is_permutation_of_range, lex_lt, pair_lt, sorted_stably, sorted_order, plain_keys};

verus! {

/// The short label of a device named `name`, whose lowercase form is `lower`.
pub open spec fn shorten_with(name: Seq<char>, lower: Seq<char>) -> Seq<char> {
    if contains_seq(lower, "knuckles"@) || contains_seq(lower, "index"@) {
        if contains_seq(lower, "left"@) {
            "Knuckles L"@
        } else if contains_seq(lower, "right"@) {
            "Knuckles R"@
        } else {
            "Knuckles"@
        }
    } else if contains_seq(lower, "controller"@) {
        if contains_seq(lower, "left"@) {
            "Controller L"@
        } else if contains_seq(lower, "right"@) {
            "Controller R"@
        } else {
            "Controller"@
        }
    } else if contains_seq(lower, "tracker"@) {
        "Tracker"@
    } else if contains_seq(lower, "hmd"@) || contains_seq(lower, "headset"@) {
        "HMD"@
    } else if contains_seq(lower, "gamepad"@) {
        "Gamepad"@
    } else if words(name).len() <= 2 {
        name
    } else {
        words(name)[0] + " "@ + words(name)[1]
    }
}

/// The short label of a device in the battery bar.
pub open spec fn shorten_spec(name: Seq<char>) -> Seq<char> {
    shorten_with(name, lowercase(name))
}

/// Shortens a device name for the battery bar: known kinds of device get a
/// fixed label (with L/R for the hand), anything else keeps its first two words.
pub fn shorten_device_name(name: &str) -> (s: String)
    ensures
        s@ == shorten_spec(name@),
{
    let lower = to_lowercase(name);
    shorten_lowered(name, lower.as_str())
}

/// The short label of a device named `name`, given the lowercase form
/// `lower_s` of the name: the keywords are looked for in `lower_s`, the
/// fallback words are taken from `name`.
pub fn shorten_lowered(name: &str, lower_s: &str) -> (s: String)
    ensures
        s@ == shorten_with(name@, lower_s@),
{
    let lower = chars_of(lower_s);
    if contains_chars(&lower, "knuckles") || contains_chars(&lower, "index") {
        if contains_chars(&lower, "left") {
            return "Knuckles L".to_owned();
        } else if contains_chars(&lower, "right") {
            return "Knuckles R".to_owned();
        }
        return "Knuckles".to_owned();
    }
    if contains_chars(&lower, "controller") {
        if contains_chars(&lower, "left") {
            return "Controller L".to_owned();
        } else if contains_chars(&lower, "right") {
            return "Controller R".to_owned();
        }
        return "Controller".to_owned();
    }
    if contains_chars(&lower, "tracker") {
        return "Tracker".to_owned();
    }
    if contains_chars(&lower, "hmd") || contains_chars(&lower, "headset") {
        return "HMD".to_owned();
    }
    if contains_chars(&lower, "gamepad") {
        return "Gamepad".to_owned();
    }
    let ws = split_words(name);
    proof {
        assert(ws@.map_values(|w: Vec<char>| w@).len() == ws.len());
    }
    if ws.len() <= 2 {
        name.to_owned()
    } else {
        let mut s = string_from_chars(&ws[0]);
        s.append(" ");
        let second = string_from_chars(&ws[1]);
        s.append(second.as_str());
        proof {
            assert(ws@.map_values(|w: Vec<char>| w@)[0] == ws@[0]@);
            assert(ws@.map_values(|w: Vec<char>| w@)[1] == ws@[1]@);
        }
        s
    }
}


/// Battery snapshot for the status bar (e.g. "Tracker 790B7B56 85%").
#[derive(Debug)]
pub struct BatteryInfo {
    pub short_name: String,
    pub serial_suffix: String,
    /// Charge fraction (0.0 to 1.0); `None` while offline.
    pub charge: Option<FloatBits>,
    pub charging: bool,
    pub online: bool,
}

/// A battery entry as plain values.
pub struct BatteryInfoView {
    pub short_name: Seq<char>,
    pub serial_suffix: Seq<char>,
    pub charge: Option<FloatBits>,
    pub charging: bool,
    pub online: bool,
}

impl View for BatteryInfo {
    type V = BatteryInfoView;

    open spec fn view(&self) -> BatteryInfoView {
        BatteryInfoView {
            short_name: self.short_name@,
            serial_suffix: self.serial_suffix@,
            charge: self.charge,
            charging: self.charging,
            online: self.online,
        }
    }
}

impl Clone for BatteryInfo {
    fn clone(&self) -> (r: Self)
        ensures
            r@ == self@,
    {
        BatteryInfo {
            short_name: self.short_name.clone(),
            serial_suffix: self.serial_suffix.clone(),
            charge: self.charge,
            charging: self.charging,
            online: self.online,
        }
    }
}

/// Every device that reports a battery can have its serial tail shown
/// without splitting a character.
pub open spec fn batteries_sliceable(cats: Seq<CategoryView>) -> bool {
    forall|c: int, d: int| 0 <= c < cats.len() && 0 <= d < cats[c].devices.len()
        && (#[trigger] cats[c].devices[d]).battery_charge is Some ==> tail_cut_ok(cats[c].devices[d])
}

/// All devices of all categories, category by category.
pub open spec fn all_devices_spec(cats: Seq<CategoryView>) -> Seq<DeviceView>
    decreases cats.len(),
{
    if cats.len() == 0 {
        Seq::empty()
    } else {
        all_devices_spec(cats.drop_last()) + cats.last().devices
    }
}

/// The first device whose identifier is `id`.
pub open spec fn find_device_spec(devs: Seq<DeviceView>, id: Seq<char>) -> Option<DeviceView>
    decreases devs.len(),
{
    if devs.len() == 0 {
        None
    } else if device_id_of(devs[0].serial, devs[0].name) == id {
        Some(devs[0])
    } else {
        find_device_spec(devs.drop_first(), id)
    }
}

/// The devices not in category `category`, in order.
pub open spec fn without_category(devs: Seq<DeviceView>, category: Seq<char>) -> Seq<DeviceView>
    decreases devs.len(),
{
    if devs.len() == 0 {
        Seq::empty()
    } else if devs.last().category == category {
        without_category(devs.drop_last(), category)
    } else {
        without_category(devs.drop_last(), category).push(devs.last())
    }
}

/// The serial tail shown under a battery entry: only when the serial could
/// tell same-named devices apart.
pub open spec fn battery_suffix_spec(d: DeviceView) -> Seq<char> {
    if d.serial.len() != 0 && d.serial != d.name {
        serial_suffix_spec(d.serial)
    } else {
        Seq::empty()
    }
}

/// The battery entry of a device that reports a battery.
pub open spec fn battery_entry(d: DeviceView) -> BatteryInfoView {
    BatteryInfoView {
        short_name: shorten_spec(d.name),
        serial_suffix: battery_suffix_spec(d),
        charge: d.battery_charge,
        charging: d.battery_charging,
        online: true,
    }
}

/// The battery entries of the devices that report a battery, in order.
pub open spec fn battery_items(devs: Seq<DeviceView>) -> Seq<(Seq<char>, BatteryInfoView)>
    decreases devs.len(),
{
    if devs.len() == 0 {
        Seq::empty()
    } else if devs.last().battery_charge is Some {
        battery_items(devs.drop_last()).push(
            (device_id_of(devs.last().serial, devs.last().name), battery_entry(devs.last())),
        )
    } else {
        battery_items(devs.drop_last())
    }
}

/// An entry whose device is gone: offline, no charge.
pub open spec fn offline_spec(b: BatteryInfoView) -> BatteryInfoView {
    BatteryInfoView { charge: None, charging: false, online: false, ..b }
}

/// The battery entries after seeing `devs`: every device with a battery gets
/// a fresh entry (the last one wins for a repeated identifier), and every
/// other known entry is marked offline.
pub open spec fn known_after(
    known: Seq<(Seq<char>, BatteryInfoView)>,
    devs: Seq<DeviceView>,
) -> Seq<(Seq<char>, BatteryInfoView)> {
    let items = battery_items(devs);
    upserted_all(known, items).map_values(
        |e: (Seq<char>, BatteryInfoView)| if has_key(items, e.0) { e } else { (e.0, offline_spec(e.1)) },
    )
}

/// The sort key of a battery entry: short name, then serial tail.
pub open spec fn battery_key(b: BatteryInfoView) -> (Seq<char>, Seq<char>) {
    (b.short_name, b.serial_suffix)
}

/// The categories with every device's battery fields replaced from `readings`.
pub open spec fn with_batteries(cats: Seq<CategoryView>, readings: Seq<(u32, Option<BatteryStatus>)>) -> Seq<CategoryView> {
    cats.map_values(|c: CategoryView| CategoryView {
        devices: c.devices.map_values(|d: DeviceView| with_battery(d, battery_lookup(readings, d.device_index))),
        ..c
    })
}

/// `list` holds the battery entries of `known` in the stably sorted order `order`.
pub open spec fn battery_listing(
    known: Seq<(Seq<char>, BatteryInfoView)>,
    list: Seq<&BatteryInfo>,
    order: Seq<usize>,
) -> bool {
    &&& is_permutation_of_range(order, known.len())
    &&& sorted_stably(known.map_values(|e: (Seq<char>, BatteryInfoView)| battery_key(e.1)), order)
    &&& list.len() == known.len()
    &&& forall|i: int| 0 <= i < list.len() ==> (#[trigger] list[i])@ == known[order[i] as int].1
}

/// Every device of the listed categories has a shortenable serial.
pub proof fn lemma_all_devices_sliceable(cats: Seq<CategoryView>)
    requires
        batteries_sliceable(cats),
    ensures
        forall|i: int| 0 <= i < all_devices_spec(cats).len() && (#[trigger] all_devices_spec(cats)[i]).battery_charge is Some
            ==> tail_cut_ok(all_devices_spec(cats)[i]),
    decreases cats.len(),
{
    if cats.len() > 0 {
        let p = cats.drop_last();
        assert(batteries_sliceable(p)) by {
            assert forall|c: int, d: int| 0 <= c < p.len() && 0 <= d < p[c].devices.len()
                && (#[trigger] p[c].devices[d]).battery_charge is Some implies tail_cut_ok(p[c].devices[d]) by {
                assert(p[c] == cats[c]);
            }
        }
        lemma_all_devices_sliceable(p);
        let a = all_devices_spec(p);
        assert forall|i: int| 0 <= i < all_devices_spec(cats).len() && (#[trigger] all_devices_spec(cats)[i]).battery_charge is Some
            implies tail_cut_ok(all_devices_spec(cats)[i]) by {
            if i >= a.len() {
                let d = i - a.len();
                assert(all_devices_spec(cats)[i] == cats[cats.len() - 1].devices[d]);
            }
        }
    }
}

proof fn lemma_upserted_all_unique(s: Seq<(Seq<char>, BatteryInfoView)>, items: Seq<(Seq<char>, BatteryInfoView)>)
    requires
        keys_unique(s),
    ensures
        keys_unique(upserted_all(s, items)),
    decreases items.len(),
{
    if items.len() > 0 {
        lemma_upserted_all_unique(s, items.drop_last());
        lemma_upserted(upserted_all(s, items.drop_last()), items.last().0, items.last().1);
    }
}

fn contains_string(v: &Vec<String>, k: &String) -> (r: bool)
    ensures
        r == (exists|i: int| 0 <= i < v.len() && (#[trigger] v@[i])@ == k@),
{
    let mut i: usize = 0;
    while i < v.len()
        invariant
            i <= v.len(),
            forall|j: int| 0 <= j < i ==> (#[trigger] v@[j])@ != k@,
        decreases v.len() - i,
    {
        if v[i] == *k {
            return true;
        }
        i = i + 1;
    }
    false
}

proof fn lemma_without_category(devs: Seq<DeviceView>, category: Seq<char>)
    ensures
        forall|i: int| 0 <= i < without_category(devs, category).len()
            ==> (#[trigger] without_category(devs, category)[i]).category != category
                && devs.contains(without_category(devs, category)[i]),
        forall|i: int| 0 <= i < devs.len() && (#[trigger] devs[i]).category != category
            ==> without_category(devs, category).contains(devs[i]),
    decreases devs.len(),
{
    if devs.len() > 0 {
        let p = devs.drop_last();
        lemma_without_category(p, category);
        let w = without_category(devs, category);
        let wp = without_category(p, category);
        assert forall|i: int| 0 <= i < w.len() implies (#[trigger] w[i]).category != category && devs.contains(w[i]) by {
            if i < wp.len() {
                assert(w[i] == wp[i]);
                let j = choose|j: int| 0 <= j < p.len() && p[j] == wp[i];
                assert(devs[j] == p[j]);
            } else {
                assert(w[i] == devs.last());
                assert(devs[devs.len() - 1] == w[i]);
            }
        }
        assert forall|i: int| 0 <= i < devs.len() && (#[trigger] devs[i]).category != category implies w.contains(devs[i]) by {
            if i < p.len() {
                assert(p[i] == devs[i]);
                let j = choose|j: int| 0 <= j < wp.len() && wp[j] == p[i];
                assert(w[j] == wp[j]);
            } else {
                assert(w[w.len() - 1] == devs[i]);
            }
        }
    }
}

/// Law: the devices offered on one side never include one from the category
/// of the device selected on the other side, and include every device
/// outside that category.
pub proof fn lemma_offered_excludes_other_category(cats: Seq<CategoryView>, other_id: Option<Seq<char>>)
    ensures
        forall|i: int| 0 <= i < offered_spec(cats, other_id).len() ==> {
            &&& all_devices_spec(cats).contains(#[trigger] offered_spec(cats, other_id)[i])
            &&& (selected_spec(cats, other_id) matches Some(d) ==> offered_spec(cats, other_id)[i].category != d.category)
        },
        forall|i: int| 0 <= i < all_devices_spec(cats).len()
            && (selected_spec(cats, other_id) matches Some(d) ==> (#[trigger] all_devices_spec(cats)[i]).category != d.category)
            ==> offered_spec(cats, other_id).contains(all_devices_spec(cats)[i]),
{
    match selected_spec(cats, other_id) {
        Some(d) => {
            lemma_without_category(all_devices_spec(cats), d.category);
        },
        None => {
            assert forall|i: int| 0 <= i < all_devices_spec(cats).len() implies
                all_devices_spec(cats).contains(#[trigger] all_devices_spec(cats)[i]) by {}
        },
    }
}

proof fn lemma_upserted_all_from(s: Seq<(Seq<char>, BatteryInfoView)>, items: Seq<(Seq<char>, BatteryInfoView)>)
    ensures
        forall|i: int| 0 <= i < upserted_all(s, items).len() ==> {
            ||| s.contains(#[trigger] upserted_all(s, items)[i])
            ||| items.contains(upserted_all(s, items)[i])
        },
        forall|i: int| 0 <= i < upserted_all(s, items).len() && has_key(items, (#[trigger] upserted_all(s, items)[i]).0)
            ==> items.contains(upserted_all(s, items)[i]),
        forall|k: Seq<char>| has_key(items, k) ==> #[trigger] has_key(upserted_all(s, items), k),
        forall|k: Seq<char>| has_key(s, k) ==> #[trigger] has_key(upserted_all(s, items), k),
        forall|k: Seq<char>| #[trigger] has_key(upserted_all(s, items), k) ==> has_key(s, k) || has_key(items, k),
    decreases items.len(),
{
    if items.len() > 0 {
        let ip = items.drop_last();
        lemma_upserted_all_from(s, ip);
        let p = upserted_all(s, ip);
        let (k, v) = items.last();
        let t = upserted(p, k, v);
        assert(t == upserted_all(s, items));
        assert forall|i: int| 0 <= i < t.len() implies {
            ||| s.contains(#[trigger] t[i])
            ||| items.contains(t[i])
        } by {
            if t[i] == (k, v) {
                assert(items[items.len() - 1] == (k, v));
            } else {
                if has_key(p, k) {
                    assert(t[i] == p[i]);
                } else if i < p.len() {
                    assert(t[i] == p[i]);
                }
                if items.contains(t[i]) {
                } else if ip.contains(t[i]) {
                    let j = choose|j: int| 0 <= j < ip.len() && ip[j] == t[i];
                    assert(items[j] == ip[j]);
                }
            }
        }
        assert forall|i: int| 0 <= i < t.len() && has_key(items, (#[trigger] t[i]).0) implies items.contains(t[i]) by {
            if t[i] == (k, v) {
                assert(items[items.len() - 1] == (k, v));
            } else {
                if has_key(p, k) {
                    assert(t[i] == p[i]);
                } else {
                    assert(t[i] == p[i]);
                }
                if t[i].0 == k {
                    // replaced entries carry the new value
                } else {
                    let w = choose|w: int| 0 <= w < items.len() && #[trigger] items[w].0 == t[i].0;
                    assert(ip[w] == items[w]);
                    assert(has_key(ip, t[i].0));
                    let j = choose|j: int| 0 <= j < ip.len() && ip[j] == p[i];
                    assert(items[j] == ip[j]);
                }
            }
        }
        assert forall|k2: Seq<char>| has_key(items, k2) implies #[trigger] has_key(t, k2) by {
            if k2 == k {
                if has_key(p, k) {
                    let a = choose|a: int| 0 <= a < p.len() && #[trigger] p[a].0 == k;
                    assert(t[a].0 == k);
                } else {
                    assert(t[p.len() as int].0 == k);
                }
            } else {
                let w = choose|w: int| 0 <= w < items.len() && #[trigger] items[w].0 == k2;
                assert(ip[w] == items[w]);
                assert(has_key(ip, k2));
                assert(has_key(p, k2));
                let a = choose|a: int| 0 <= a < p.len() && #[trigger] p[a].0 == k2;
                assert(t[a].0 == k2);
            }
        }
        assert forall|k2: Seq<char>| has_key(s, k2) implies #[trigger] has_key(t, k2) by {
            assert(has_key(p, k2));
            let a = choose|a: int| 0 <= a < p.len() && #[trigger] p[a].0 == k2;
            if k2 == k {
                assert(t[a].0 == k);
            } else {
                assert(t[a].0 == k2);
            }
        }
        assert forall|k2: Seq<char>| #[trigger] has_key(t, k2) implies has_key(s, k2) || has_key(items, k2) by {
            let b = choose|b: int| 0 <= b < t.len() && #[trigger] t[b].0 == k2;
            if k2 == k {
                assert(items[items.len() - 1].0 == k);
            } else {
                assert(t[b] == p[b]);
                assert(has_key(p, k2));
                if has_key(ip, k2) {
                    let w = choose|w: int| 0 <= w < ip.len() && #[trigger] ip[w].0 == k2;
                    assert(items[w] == ip[w]);
                }
            }
        }
    }
}

proof fn lemma_battery_items_online(devs: Seq<DeviceView>)
    ensures
        forall|i: int| 0 <= i < battery_items(devs).len() ==> (#[trigger] battery_items(devs)[i]).1.online
            && battery_items(devs)[i].1.charge is Some,
        forall|i: int| 0 <= i < devs.len() && (#[trigger] devs[i]).battery_charge is Some
            ==> has_key(battery_items(devs), device_id_of(devs[i].serial, devs[i].name)),
    decreases devs.len(),
{
    if devs.len() > 0 {
        let p = devs.drop_last();
        lemma_battery_items_online(p);
        let it = battery_items(devs);
        let ip = battery_items(p);
        assert forall|i: int| 0 <= i < it.len() implies (#[trigger] it[i]).1.online && it[i].1.charge is Some by {
            if i < ip.len() {
                assert(it[i] == ip[i]);
            }
        }
        assert forall|i: int| 0 <= i < devs.len() && (#[trigger] devs[i]).battery_charge is Some
            implies has_key(it, device_id_of(devs[i].serial, devs[i].name)) by {
            if i < p.len() {
                assert(p[i] == devs[i]);
                let w = choose|w: int| 0 <= w < ip.len() && #[trigger] ip[w].0 == device_id_of(p[i].serial, p[i].name);
                assert(it[w] == ip[w]);
            } else {
                assert(it[ip.len() as int].0 == device_id_of(devs[i].serial, devs[i].name));
            }
        }
    }
}

/// Law: after the battery entries are updated from a device list, every
/// device reporting a battery has an entry, an entry is online exactly when
/// its device reported a battery, online entries carry a charge and offline
/// ones do not, and no entry is ever dropped.
pub proof fn lemma_known_after(known: Seq<(Seq<char>, BatteryInfoView)>, devs: Seq<DeviceView>)
    ensures
        forall|i: int| 0 <= i < devs.len() && (#[trigger] devs[i]).battery_charge is Some
            ==> has_key(known_after(known, devs), device_id_of(devs[i].serial, devs[i].name)),
        forall|i: int| 0 <= i < known_after(known, devs).len() ==> {
            &&& (#[trigger] known_after(known, devs)[i]).1.online <==> has_key(battery_items(devs), known_after(known, devs)[i].0)
            &&& (known_after(known, devs)[i].1.online <==> known_after(known, devs)[i].1.charge is Some)
        },
        forall|k: Seq<char>| has_key(known, k) ==> #[trigger] has_key(known_after(known, devs), k),
{
    let items = battery_items(devs);
    let up = upserted_all(known, items);
    let ka = known_after(known, devs);
    lemma_upserted_all_from(known, items);
    lemma_battery_items_online(devs);
    assert forall|k: Seq<char>| #[trigger] has_key(up, k) implies has_key(ka, k) by {
        let a = choose|a: int| 0 <= a < up.len() && #[trigger] up[a].0 == k;
        assert(ka[a].0 == k);
    }
    assert forall|i: int| 0 <= i < devs.len() && (#[trigger] devs[i]).battery_charge is Some
        implies has_key(ka, device_id_of(devs[i].serial, devs[i].name)) by {
        let id = device_id_of(devs[i].serial, devs[i].name);
        assert(has_key(items, id));
        assert(has_key(up, id));
    }
    assert forall|k: Seq<char>| has_key(known, k) implies #[trigger] has_key(ka, k) by {
        assert(has_key(up, k));
    }
    assert forall|i: int| 0 <= i < ka.len() implies {
        &&& (#[trigger] ka[i]).1.online <==> has_key(items, ka[i].0)
        &&& (ka[i].1.online <==> ka[i].1.charge is Some)
    } by {
        if has_key(items, up[i].0) {
            assert(items.contains(up[i]));
            let j = choose|j: int| 0 <= j < items.len() && items[j] == up[i];
            assert(items[j].1.online);
        }
    }
}

/// The selection read from a saved setting: none for an empty one.
pub open spec fn selection_from_setting(saved: Seq<char>) -> Option<Seq<char>> {
    if saved.len() == 0 { None } else { Some(saved) }
}

/// The setting saved for a selection: empty for none.
pub open spec fn setting_from_selection(sel: Option<Seq<char>>) -> Seq<char> {
    match sel {
        Some(s) => s,
        None => Seq::<char>::empty(),
    }
}

/// Law: a saved selection read back and saved again is unchanged, and a
/// selection saved and read back is unchanged unless it names the empty
/// identifier.
pub proof fn lemma_selection_round_trip(saved: Seq<char>, sel: Option<Seq<char>>)
    ensures
        setting_from_selection(selection_from_setting(saved)) == saved,
        sel != Some(Seq::<char>::empty()) ==> selection_from_setting(setting_from_selection(sel)) == sel,
{
    if let Some(s) = sel {
        if s.len() == 0 {
            assert(s =~= Seq::<char>::empty());
        }
    }
}

/// Law: a battery listing runs in order of short name, and entries with
/// the same short name run in order of serial tail.
pub proof fn lemma_battery_listing_sorted(
    known: Seq<(Seq<char>, BatteryInfoView)>,
    list: Seq<&BatteryInfo>,
    order: Seq<usize>,
)
    requires
        battery_listing(known, list, order),
    ensures
        forall|i: int, j: int| 0 <= i < j < list.len() ==> {
            &&& !lex_lt((#[trigger] list[j])@.short_name, (#[trigger] list[i])@.short_name)
            &&& (list[j]@.short_name == list[i]@.short_name
                ==> !lex_lt(list[j]@.serial_suffix, list[i]@.serial_suffix))
        },
{
    let keys = known.map_values(|e: (Seq<char>, BatteryInfoView)| battery_key(e.1));
    assert forall|i: int, j: int| 0 <= i < j < list.len() implies {
        &&& !lex_lt((#[trigger] list[j])@.short_name, (#[trigger] list[i])@.short_name)
        &&& (list[j]@.short_name == list[i]@.short_name
            ==> !lex_lt(list[j]@.serial_suffix, list[i]@.serial_suffix))
    } by {
        assert(!pair_lt(keys[order[j] as int], keys[order[i] as int]));
        assert(keys[order[j] as int] == battery_key(list[j]@));
        assert(keys[order[i] as int] == battery_key(list[i]@));
    }
}

/// The state as plain values.
pub struct AppStateView<C> {
    pub connection: Option<C>,
    pub categories: Seq<CategoryView>,
    pub source_id: Option<Seq<char>>,
    pub target_id: Option<Seq<char>>,
    /// Movement intensity by device identifier.
    pub movement_intensities: Seq<(Seq<char>, FloatBits)>,
    /// Battery entries by device identifier, in the order devices were first seen.
    pub known_battery_devices: Seq<(Seq<char>, BatteryInfoView)>,
    pub hide_calibration_help: bool,
    pub sample_count: u32,
    pub continuous_enabled: bool,
}

/// A string option as plain values.
pub open spec fn opt_view(o: Option<String>) -> Option<Seq<char>> {
    match o {
        Some(s) => Some(s@),
        None => None,
    }
}

/// The selected device for an identifier, among all devices.
pub open spec fn selected_spec(cats: Seq<CategoryView>, id: Option<Seq<char>>) -> Option<DeviceView> {
    match id {
        Some(i) => find_device_spec(all_devices_spec(cats), i),
        None => None,
    }
}

/// The devices offered on one side: all devices but those in the category
/// of the device selected on the other side.
pub open spec fn offered_spec(cats: Seq<CategoryView>, other_id: Option<Seq<char>>) -> Seq<DeviceView> {
    match selected_spec(cats, other_id) {
        Some(d) => without_category(all_devices_spec(cats), d.category),
        None => all_devices_spec(cats),
    }
}

/// Central application state.  `C` is the connection to the Monado service,
/// which the library only holds.
pub struct AppState<C> {
    connection: Option<C>,
    categories: Vec<Category>,
    source_id: Option<String>,
    target_id: Option<String>,
    movement_intensities: Vec<(String, FloatBits)>,
    /// Tracks battery devices across disconnects to show offline status.
    known_battery_devices: Vec<(String, BatteryInfo)>,
    hide_calibration_help: bool,
    sample_count: u32,
    continuous_enabled: bool,
}

impl<C> View for AppState<C> {
    type V = AppStateView<C>;

    closed spec fn view(&self) -> AppStateView<C> {
        AppStateView {
            connection: self.connection,
            categories: self.categories@.map_values(|c: Category| c@),
            source_id: opt_view(self.source_id),
            target_id: opt_view(self.target_id),
            movement_intensities: entries_view(self.movement_intensities@),
            known_battery_devices: entries_view(self.known_battery_devices@),
            hide_calibration_help: self.hide_calibration_help,
            sample_count: self.sample_count,
            continuous_enabled: self.continuous_enabled,
        }
    }
}

fn same_opt_string(a: &Option<String>, b: &Option<String>) -> (r: bool)
    ensures
        r == (opt_view(*a) == opt_view(*b)),
{
    match (a, b) {
        (Some(x), Some(y)) => *x == *y,
        (None, None) => true,
        _ => false,
    }
}

fn clone_opt_string(a: &Option<String>) -> (r: Option<String>)
    ensures
        opt_view(r) == opt_view(*a),
{
    match a {
        Some(x) => Some(x.clone()),
        None => None,
    }
}

fn string_or_empty(a: &Option<String>) -> (r: String)
    ensures
        r@ == (match opt_view(*a) {
            Some(s) => s,
            None => Seq::<char>::empty(),
        }),
{
    match a {
        Some(x) => x.clone(),
        None => String::new(),
    }
}

fn categories_view(v: &Vec<Category>) -> (r: Ghost<Seq<CategoryView>>)
    ensures
        r@ == v@.map_values(|c: Category| c@),
{
    Ghost(v@.map_values(|c: Category| c@))
}

impl<C> AppState<C> {
    #[verifier::type_invariant]
    closed spec fn inv(self) -> bool {
        &&& keys_unique(entries_view(self.movement_intensities@))
        &&& keys_unique(entries_view(self.known_battery_devices@))
        &&& batteries_sliceable(self.categories@.map_values(|c: Category| c@))
    }

    pub fn is_connected(&self) -> (b: bool)
        ensures
            b == self@.connection is Some,
    {
        self.connection.is_some()
    }

    /// The connection held, if any.
    pub fn connection(&self) -> (c: Option<&C>)
        ensures
            match c {
                Some(r) => self@.connection == Some(*r),
                None => self@.connection is None,
            },
    {
        match &self.connection {
            Some(c) => Some(c),
            None => None,
        }
    }

    pub fn categories(&self) -> (c: &Vec<Category>)
        ensures
            c@.map_values(|x: Category| x@) == self@.categories,
    {
        &self.categories
    }

    /// Every device of every category, category by category.
    pub fn all_devices(&self) -> (devs: Vec<Device>)
        ensures
            devs@.map_values(|d: Device| d@) == all_devices_spec(self@.categories),
    {
        let ghost cats = self@.categories;
        let mut devs: Vec<Device> = Vec::new();
        let mut c: usize = 0;
        while c < self.categories.len()
            invariant
                c <= self.categories.len(),
                cats == self.categories@.map_values(|x: Category| x@),
                devs@.map_values(|d: Device| d@) == all_devices_spec(cats.take(c as int)),
            decreases self.categories.len() - c,
        {
            let ghost before = devs@.map_values(|d: Device| d@);
            let mut d: usize = 0;
            while d < self.categories[c].devices.len()
                invariant
                    c < self.categories.len(),
                    d <= self.categories@[c as int].devices.len(),
                    devs@.map_values(|x: Device| x@) == before + self.categories@[c as int].devices@.take(d as int).map_values(|x: Device| x@),
                decreases self.categories@[c as int].devices.len() - d,
            {
                let dev = self.categories[c].devices[d].clone();
                let ghost prev = devs@;
                devs.push(dev);
                proof {
                    assert(devs@.map_values(|x: Device| x@) =~= prev.map_values(|x: Device| x@).push(dev@));
                    assert(self.categories@[c as int].devices@.take(d as int + 1).map_values(|x: Device| x@)
                        =~= self.categories@[c as int].devices@.take(d as int).map_values(|x: Device| x@).push(dev@));
                    assert(devs@.map_values(|x: Device| x@) =~= before + self.categories@[c as int].devices@.take(d as int + 1).map_values(|x: Device| x@));
                }
                d = d + 1;
            }
            proof {
                assert(self.categories@[c as int].devices@.take(d as int) =~= self.categories@[c as int].devices@);
                assert(cats.take(c as int + 1).drop_last() =~= cats.take(c as int));
                assert(cats.take(c as int + 1).last() == self.categories@[c as int]@);
            }
            c = c + 1;
        }
        proof {
            assert(cats.take(c as int) =~= cats);
        }
        devs
    }

    fn find_device(devs: &Vec<Device>, id: &String) -> (r: Option<Device>)
        ensures
            match r {
                Some(d) => find_device_spec(devs@.map_values(|x: Device| x@), id@) == Some(d@),
                None => find_device_spec(devs@.map_values(|x: Device| x@), id@) is None,
            },
    {
        let ghost all = devs@.map_values(|x: Device| x@);
        let mut i: usize = 0;
        assert(all.skip(0) =~= all);
        while i < devs.len()
            invariant
                i <= devs.len(),
                all == devs@.map_values(|x: Device| x@),
                find_device_spec(all, id@) == find_device_spec(all.skip(i as int), id@),
            decreases devs.len() - i,
        {
            proof {
                assert(all.skip(i as int)[0] == devs@[i as int]@);
                assert(all.skip(i as int).drop_first() =~= all.skip(i as int + 1));
            }
            let uid = devs[i].unique_id().to_owned();
            if uid == *id {
                return Some(devs[i].clone());
            }
            i = i + 1;
        }
        None
    }

    /// The selected source device, if it is among the devices.
    pub fn selected_source(&self) -> (d: Option<Device>)
        ensures
            match d {
                Some(x) => selected_spec(self@.categories, self@.source_id) == Some(x@),
                None => selected_spec(self@.categories, self@.source_id) is None,
            },
    {
        match &self.source_id {
            Some(id) => {
                let devs = self.all_devices();
                Self::find_device(&devs, id)
            },
            None => None,
        }
    }

    /// The selected target device, if it is among the devices.
    pub fn selected_target(&self) -> (d: Option<Device>)
        ensures
            match d {
                Some(x) => selected_spec(self@.categories, self@.target_id) == Some(x@),
                None => selected_spec(self@.categories, self@.target_id) is None,
            },
    {
        match &self.target_id {
            Some(id) => {
                let devs = self.all_devices();
                Self::find_device(&devs, id)
            },
            None => None,
        }
    }

    fn devices_outside(devs: Vec<Device>, exclude: Option<String>) -> (r: Vec<Device>)
        ensures
            r@.map_values(|x: Device| x@) == (match opt_view(exclude) {
                Some(c) => without_category(devs@.map_values(|x: Device| x@), c),
                None => devs@.map_values(|x: Device| x@),
            }),
    {
        match exclude {
            None => devs,
            Some(exc) => {
                let ghost all = devs@.map_values(|x: Device| x@);
                let mut r: Vec<Device> = Vec::new();
                let mut i: usize = 0;
                while i < devs.len()
                    invariant
                        i <= devs.len(),
                        all == devs@.map_values(|x: Device| x@),
                        r@.map_values(|x: Device| x@) == without_category(all.take(i as int), exc@),
                    decreases devs.len() - i,
                {
                    proof {
                        assert(all.take(i as int + 1).drop_last() =~= all.take(i as int));
                        assert(all.take(i as int + 1).last() == devs@[i as int]@);
                    }
                    if !(devs[i].category == exc) {
                        let ghost before = r@;
                        let d = devs[i].clone();
                        r.push(d);
                        proof {
                            assert(r@.map_values(|x: Device| x@) =~= before.map_values(|x: Device| x@).push(d@));
                        }
                    }
                    i = i + 1;
                }
                proof {
                    assert(all.take(i as int) =~= all);
                }
                r
            },
        }
    }

    /// Devices offered as source: all but those in the selected target's category.
    pub fn source_devices(&self) -> (devs: Vec<Device>)
        ensures
            devs@.map_values(|x: Device| x@) == offered_spec(self@.categories, self@.target_id),
    {
        let exclude = match self.selected_target() {
            Some(d) => Some(d.category),
            None => None,
        };
        Self::devices_outside(self.all_devices(), exclude)
    }

    /// Devices offered as target: all but those in the selected source's category.
    pub fn target_devices(&self) -> (devs: Vec<Device>)
        ensures
            devs@.map_values(|x: Device| x@) == offered_spec(self@.categories, self@.source_id),
    {
        let exclude = match self.selected_source() {
            Some(d) => Some(d.category),
            None => None,
        };
        Self::devices_outside(self.all_devices(), exclude)
    }

    /// Identifier of the selected source.
    pub fn source_name(&self) -> (s: Option<&str>)
        ensures
            match s {
                Some(x) => self@.source_id == Some(x@),
                None => self@.source_id is None,
            },
    {
        match &self.source_id {
            Some(x) => Some(x.as_str()),
            None => None,
        }
    }

    /// Identifier of the selected target.
    pub fn target_name(&self) -> (s: Option<&str>)
        ensures
            match s {
                Some(x) => self@.target_id == Some(x@),
                None => self@.target_id is None,
            },
    {
        match &self.target_id {
            Some(x) => Some(x.as_str()),
            None => None,
        }
    }

    /// Selects the source; reports whether the selection changed (then the
    /// settings are to be saved and listeners told).
    pub fn set_source(&mut self, id: Option<String>) -> (changed: bool)
        ensures
            changed == (old(self)@.source_id != opt_view(id)),
            final(self)@ == (AppStateView { source_id: opt_view(id), ..old(self)@ }),
    {
        proof { use_type_invariant(&*self); }
        if !same_opt_string(&self.source_id, &id) {
            self.source_id = id;
            true
        } else {
            false
        }
    }

    /// Selects the target; reports whether the selection changed.
    pub fn set_target(&mut self, id: Option<String>) -> (changed: bool)
        ensures
            changed == (old(self)@.target_id != opt_view(id)),
            final(self)@ == (AppStateView { target_id: opt_view(id), ..old(self)@ }),
    {
        proof { use_type_invariant(&*self); }
        if !same_opt_string(&self.target_id, &id) {
            self.target_id = id;
            true
        } else {
            false
        }
    }

    pub fn hide_calibration_help(&self) -> (b: bool)
        ensures
            b == self@.hide_calibration_help,
    {
        self.hide_calibration_help
    }

    /// Sets whether the help dialog is skipped; reports a change.
    pub fn set_hide_calibration_help(&mut self, hide: bool) -> (changed: bool)
        ensures
            changed == (old(self)@.hide_calibration_help != hide),
            final(self)@ == (AppStateView { hide_calibration_help: hide, ..old(self)@ }),
    {
        proof { use_type_invariant(&*self); }
        if self.hide_calibration_help != hide {
            self.hide_calibration_help = hide;
            true
        } else {
            false
        }
    }

    pub fn sample_count(&self) -> (n: u32)
        ensures
            n == self@.sample_count,
    {
        self.sample_count
    }

    /// Sets the sample count; reports a change.
    pub fn set_sample_count(&mut self, count: u32) -> (changed: bool)
        ensures
            changed == (old(self)@.sample_count != count),
            final(self)@ == (AppStateView { sample_count: count, ..old(self)@ }),
    {
        proof { use_type_invariant(&*self); }
        if self.sample_count != count {
            self.sample_count = count;
            true
        } else {
            false
        }
    }

    pub fn continuous_enabled(&self) -> (b: bool)
        ensures
            b == self@.continuous_enabled,
    {
        self.continuous_enabled
    }

    /// Sets the continuous mode; reports a change.
    pub fn set_continuous_enabled(&mut self, enabled: bool) -> (changed: bool)
        ensures
            changed == (old(self)@.continuous_enabled != enabled),
            final(self)@ == (AppStateView { continuous_enabled: enabled, ..old(self)@ }),
    {
        proof { use_type_invariant(&*self); }
        if self.continuous_enabled != enabled {
            self.continuous_enabled = enabled;
            true
        } else {
            false
        }
    }

    /// The settings to persist: selections (empty when none) and options.
    pub fn config(&self) -> (c: Config)
        ensures
            c.source@ == setting_from_selection(self@.source_id),
            c.target@ == setting_from_selection(self@.target_id),
            c.hide_calibration_help == self@.hide_calibration_help,
            c.sample_count == self@.sample_count,
            c.continuous_enabled == self@.continuous_enabled,
    {
        Config {
            source: string_or_empty(&self.source_id),
            target: string_or_empty(&self.target_id),
            hide_calibration_help: self.hide_calibration_help,
            sample_count: self.sample_count,
            continuous_enabled: self.continuous_enabled,
        }
    }

    fn update_known_battery_devices(&mut self)
        ensures
            final(self)@ == (AppStateView {
                known_battery_devices: known_after(old(self)@.known_battery_devices, all_devices_spec(old(self)@.categories)),
                ..old(self)@
            }),
    {
        proof { use_type_invariant(&*self); }
        let ghost cats = self@.categories;
        let ghost k0 = self@.known_battery_devices;
        let devs = self.all_devices();
        let ghost dv = devs@.map_values(|d: Device| d@);
        proof { lemma_all_devices_sliceable(cats); }
        let mut known: Vec<(String, BatteryInfo)> = Vec::new();
        std::mem::swap(&mut known, &mut self.known_battery_devices);
        let mut seen: Vec<String> = Vec::new();
        let mut j: usize = 0;
        while j < devs.len()
            invariant
                j <= devs.len(),
                dv == devs@.map_values(|d: Device| d@),
                dv == all_devices_spec(cats),
                forall|i: int| 0 <= i < dv.len() && (#[trigger] dv[i]).battery_charge is Some ==> tail_cut_ok(dv[i]),
                keys_unique(entries_view(known@)),
                entries_view(known@) == upserted_all(k0, battery_items(dv.take(j as int))),
                seen@.map_values(|x: String| x@) == battery_items(dv.take(j as int)).map_values(
                    |e: (Seq<char>, BatteryInfoView)| e.0,
                ),
            decreases devs.len() - j,
        {
            proof {
                assert(dv.take(j as int + 1).drop_last() =~= dv.take(j as int));
                assert(dv.take(j as int + 1).last() == devs@[j as int]@);
            }
            let dev = &devs[j];
            match dev.battery_charge {
                Some(charge) => {
                    let id = dev.unique_id().to_owned();
                    let suffix = if !dev.serial.as_str().is_empty() && !(dev.serial == dev.name) {
                        serial_suffix(dev.serial.as_str()).to_owned()
                    } else {
                        String::new()
                    };
                    let info = BatteryInfo {
                        short_name: shorten_device_name(dev.name.as_str()),
                        serial_suffix: suffix,
                        charge: Some(charge),
                        charging: dev.battery_charging,
                        online: true,
                    };
                    let ghost before_seen = seen@;
                    seen.push(id.clone());
                    proof {
                        assert(info@ == battery_entry(dev@));
                        let items_j = battery_items(dv.take(j as int));
                        assert(battery_items(dv.take(j as int + 1)) == items_j.push((id@, info@)));
                        assert(items_j.push((id@, info@)).drop_last() =~= items_j);
                        assert(battery_items(dv.take(j as int + 1)).map_values(|e: (Seq<char>, BatteryInfoView)| e.0)
                            =~= items_j.map_values(|e: (Seq<char>, BatteryInfoView)| e.0).push(id@));
                        assert(seen@.map_values(|x: String| x@) =~= before_seen.map_values(|x: String| x@).push(id@));
                    }
                    upsert(&mut known, id, info);
                },
                None => {
                    proof {
                        assert(battery_items(dv.take(j as int + 1)) == battery_items(dv.take(j as int)));
                    }
                },
            }
            j = j + 1;
        }
        proof {
            assert(dv.take(j as int) =~= dv);
        }
        let ghost items = battery_items(dv);
        let ghost up = entries_view(known@);
        let mut i: usize = 0;
        while i < known.len()
            invariant
                i <= known.len(),
                up.len() == known.len(),
                keys_unique(up),
                seen@.map_values(|x: String| x@) == items.map_values(|e: (Seq<char>, BatteryInfoView)| e.0),
                forall|m: int| #![trigger known@[m]] 0 <= m < known.len() ==> {
                    &&& known@[m].0@ == up[m].0
                    &&& (m < i ==> (known@[m].0@, known@[m].1@) == (if has_key(items, up[m].0) { up[m] } else { (up[m].0, offline_spec(up[m].1)) }))
                    &&& (m >= i ==> (known@[m].0@, known@[m].1@) == up[m])
                },
            decreases known.len() - i,
        {
            let present = contains_string(&seen, &known[i].0);
            proof {
                let key = up[i as int].0;
                assert(seen@.map_values(|x: String| x@).len() == seen@.len());
                assert(items.map_values(|e: (Seq<char>, BatteryInfoView)| e.0).len() == items.len());
                if present {
                    let w = choose|w: int| 0 <= w < seen.len() && (#[trigger] seen@[w])@ == known@[i as int].0@;
                    assert(seen@.map_values(|x: String| x@)[w] == items.map_values(|e: (Seq<char>, BatteryInfoView)| e.0)[w]);
                    assert(items[w].0 == key);
                    assert(has_key(items, key));
                } else {
                    if has_key(items, key) {
                        let w = choose|w: int| 0 <= w < items.len() && #[trigger] items[w].0 == key;
                        assert(seen@.map_values(|x: String| x@)[w] == items.map_values(|e: (Seq<char>, BatteryInfoView)| e.0)[w]);
                        assert(seen@[w]@ == known@[i as int].0@);
                    }
                }
            }
            if !present {
                let e = (
                    known[i].0.clone(),
                    BatteryInfo {
                        short_name: known[i].1.short_name.clone(),
                        serial_suffix: known[i].1.serial_suffix.clone(),
                        charge: None,
                        charging: false,
                        online: false,
                    },
                );
                known.set(i, e);
            }
            i = i + 1;
        }
        proof {
            assert(entries_view(known@) =~= known_after(k0, dv));
            assert(keys_unique(entries_view(known@))) by {
                assert forall|a: int, b: int| 0 <= a < known.len() && 0 <= b < known.len() && a != b
                    implies entries_view(known@)[a].0 != entries_view(known@)[b].0 by {
                    assert(known@[a].0@ == up[a].0);
                    assert(known@[b].0@ == up[b].0);
                }
            }
        }
        self.known_battery_devices = known;
    }

    /// The state at start-up: settings from `config`, the connection if one
    /// was made, and the devices found through it (none without a connection).
    pub fn new(config: Config, connection: Option<C>, categories: Vec<Category>) -> (s: Self)
        requires
            batteries_sliceable(categories@.map_values(|c: Category| c@)),
        ensures
            s@.connection == connection,
            s@.categories == (if connection is Some {
                categories@.map_values(|c: Category| c@)
            } else {
                Seq::<CategoryView>::empty()
            }),
            s@.source_id == selection_from_setting(config.source@),
            s@.target_id == selection_from_setting(config.target@),
            s@.movement_intensities == Seq::<(Seq<char>, FloatBits)>::empty(),
            s@.known_battery_devices == known_after(Seq::empty(), all_devices_spec(s@.categories)),
            s@.hide_calibration_help == config.hide_calibration_help,
            s@.sample_count == config.sample_count,
            s@.continuous_enabled == config.continuous_enabled,
    {
        let cats = if connection.is_some() { categories } else { Vec::new() };
        proof {
            assert(batteries_sliceable(cats@.map_values(|c: Category| c@)));
        }
        let source_id = if config.source.as_str().is_empty() { None } else { Some(config.source) };
        let target_id = if config.target.as_str().is_empty() { None } else { Some(config.target) };
        let mut state = AppState {
            connection,
            categories: cats,
            source_id,
            target_id,
            movement_intensities: Vec::new(),
            known_battery_devices: Vec::new(),
            hide_calibration_help: config.hide_calibration_help,
            sample_count: config.sample_count,
            continuous_enabled: config.continuous_enabled,
        };
        proof {
            assert(entries_view(state.movement_intensities@) =~= Seq::<(Seq<char>, FloatBits)>::empty());
            assert(entries_view(state.known_battery_devices@) =~= Seq::<(Seq<char>, BatteryInfoView)>::empty());
        }
        state.update_known_battery_devices();
        state
    }

    /// Reconnection poll.  `attempt` is the result of a connection attempt
    /// made only while disconnected, `enumerated` the devices found through
    /// it.  Reports whether the connection state changed.
    pub fn refresh_connection(&mut self, attempt: Option<C>, enumerated: Vec<Category>) -> (changed: bool)
        requires
            batteries_sliceable(enumerated@.map_values(|c: Category| c@)),
        ensures
            old(self)@.connection is Some ==> final(self)@ == old(self)@ && !changed,
            old(self)@.connection is None && attempt is Some ==> changed && final(self)@ == (AppStateView {
                connection: attempt,
                categories: enumerated@.map_values(|c: Category| c@),
                known_battery_devices: known_after(
                    old(self)@.known_battery_devices,
                    all_devices_spec(enumerated@.map_values(|c: Category| c@)),
                ),
                ..old(self)@
            }),
            old(self)@.connection is None && attempt is None ==> !changed && final(self)@ == (AppStateView {
                categories: Seq::<CategoryView>::empty(),
                ..old(self)@
            }),
    {
        proof { use_type_invariant(&*self); }
        if self.connection.is_some() {
            return false;
        }
        if attempt.is_some() {
            self.connection = attempt;
            self.categories = enumerated;
            self.update_known_battery_devices();
            true
        } else {
            self.categories = Vec::new();
            proof {
                assert(self@.categories =~= Seq::<CategoryView>::empty());
            }
            false
        }
    }

    /// Forced refresh: takes a fresh connection attempt and its devices.
    pub fn force_refresh(&mut self, connection: Option<C>, enumerated: Vec<Category>)
        requires
            batteries_sliceable(enumerated@.map_values(|c: Category| c@)),
        ensures
            final(self)@ == ({
                let cats = if connection is Some {
                    enumerated@.map_values(|c: Category| c@)
                } else {
                    Seq::<CategoryView>::empty()
                };
                AppStateView {
                    connection: connection,
                    categories: cats,
                    known_battery_devices: known_after(old(self)@.known_battery_devices, all_devices_spec(cats)),
                    ..old(self)@
                }
            }),
    {
        proof { use_type_invariant(&*self); }
        let ghost cv = if connection is Some {
            enumerated@.map_values(|c: Category| c@)
        } else {
            Seq::<CategoryView>::empty()
        };
        let cats = if connection.is_some() { enumerated } else { Vec::new() };
        proof {
            assert(cats@.map_values(|c: Category| c@) =~= cv);
            assert(batteries_sliceable(cats@.map_values(|c: Category| c@)));
        }
        self.connection = connection;
        self.categories = cats;
        self.update_known_battery_devices();
    }

    /// Battery poll.  `readings` is what the battery query through the
    /// connection returned; it is used only while connected.  A failed
    /// query drops the connection and the devices.
    pub fn refresh_batteries(&mut self, readings: Result<Vec<(u32, Option<BatteryStatus>)>, MonadoError>)
        requires
            old(self)@.connection is Some && readings is Ok
                ==> batteries_sliceable(with_batteries(old(self)@.categories, readings->Ok_0@)),
        ensures
            ({
                let mid = if old(self)@.connection is Some {
                    match readings {
                        Ok(rs) => AppStateView {
                            categories: with_batteries(old(self)@.categories, rs@),
                            ..old(self)@
                        },
                        Err(_) => AppStateView {
                            connection: None,
                            categories: Seq::<CategoryView>::empty(),
                            ..old(self)@
                        },
                    }
                } else {
                    old(self)@
                };
                final(self)@ == AppStateView {
                    known_battery_devices: known_after(mid.known_battery_devices, all_devices_spec(mid.categories)),
                    ..mid
                }
            }),
    {
        proof { use_type_invariant(&*self); }
        if self.connection.is_some() {
            match readings {
                Ok(rs) => {
                    let ghost before = self@.categories;
                    let mut cats: Vec<Category> = Vec::new();
                    std::mem::swap(&mut cats, &mut self.categories);
                    apply_battery_statuses(&mut cats, &rs);
                    proof {
                        let after = cats@.map_values(|c: Category| c@);
                        assert(after =~= with_batteries(before, rs@)) by {
                            assert forall|m: int| 0 <= m < after.len() implies after[m] == #[trigger] with_batteries(before, rs@)[m] by {
                                assert(cats@[m]@.devices =~= before[m].devices.map_values(
                                    |d: DeviceView| with_battery(d, battery_lookup(rs@, d.device_index)),
                                ));
                            }
                        }
                        assert(batteries_sliceable(after));
                    }
                    self.categories = cats;
                },
                Err(_) => {
                    self.connection = None;
                    self.categories = Vec::new();
                    proof {
                        assert(self@.categories =~= Seq::<CategoryView>::empty());
                    }
                },
            }
        }
        self.update_known_battery_devices();
    }

    /// Replaces the movement intensities with `movements` (a later entry for
    /// the same device wins).
    pub fn set_movement_intensities(&mut self, movements: Vec<DeviceMovement>)
        ensures
            final(self)@ == (AppStateView {
                movement_intensities: upserted_all(
                    Seq::<(Seq<char>, FloatBits)>::empty(),
                    movements@.map_values(|m: DeviceMovement| (m.device_id@, m.intensity)),
                ),
                ..old(self)@
            }),
    {
        proof { use_type_invariant(&*self); }
        let ghost ms = movements@.map_values(|m: DeviceMovement| (m.device_id@, m.intensity));
        let mut table: Vec<(String, FloatBits)> = Vec::new();
        proof {
            assert(entries_view(table@) =~= Seq::<(Seq<char>, FloatBits)>::empty());
            assert(ms.take(0) =~= Seq::<(Seq<char>, FloatBits)>::empty());
        }
        let mut i: usize = 0;
        while i < movements.len()
            invariant
                i <= movements.len(),
                ms == movements@.map_values(|m: DeviceMovement| (m.device_id@, m.intensity)),
                keys_unique(entries_view(table@)),
                entries_view(table@) == upserted_all(Seq::<(Seq<char>, FloatBits)>::empty(), ms.take(i as int)),
            decreases movements.len() - i,
        {
            proof {
                assert(ms.take(i as int + 1).drop_last() =~= ms.take(i as int));
            }
            upsert(&mut table, movements[i].device_id.clone(), movements[i].intensity);
            i = i + 1;
        }
        proof {
            assert(ms.take(i as int) =~= ms);
        }
        self.movement_intensities = table;
    }

    /// Movement intensity by device identifier.
    pub fn movement_intensities(&self) -> (m: &Vec<(String, FloatBits)>)
        ensures
            entries_view(m@) == self@.movement_intensities,
    {
        &self.movement_intensities
    }

    /// The battery entries sorted by short name, then serial tail; entries
    /// with equal keys keep their order.
    pub fn battery_status_list(&self) -> (list: Vec<&BatteryInfo>)
        ensures
            exists|order: Seq<usize>| #[trigger] battery_listing(
                self@.known_battery_devices,
                list@,
                order,
            ),
            forall|i: int, j: int| 0 <= i < j < list@.len() ==> {
                &&& !lex_lt((#[trigger] list@[j])@.short_name, (#[trigger] list@[i])@.short_name)
                &&& (list@[j]@.short_name == list@[i]@.short_name
                    ==> !lex_lt(list@[j]@.serial_suffix, list@[i]@.serial_suffix))
            },
    {
        let ghost known = self@.known_battery_devices;
        let mut keys: Vec<(Vec<char>, Vec<char>)> = Vec::new();
        let mut i: usize = 0;
        while i < self.known_battery_devices.len()
            invariant
                i <= self.known_battery_devices.len(),
                known == entries_view(self.known_battery_devices@),
                keys.len() == i,
                forall|m: int| 0 <= m < i ==> (#[trigger] keys@[m]).0@ == known[m].1.short_name && keys@[m].1@ == known[m].1.serial_suffix,
            decreases self.known_battery_devices.len() - i,
        {
            let a = chars_of(self.known_battery_devices[i].1.short_name.as_str());
            let b = chars_of(self.known_battery_devices[i].1.serial_suffix.as_str());
            keys.push((a, b));
            i = i + 1;
        }
        let order = sorted_order(&keys);
        proof {
            assert(plain_keys(keys@) =~= known.map_values(|e: (Seq<char>, BatteryInfoView)| battery_key(e.1)));
        }
        let mut list: Vec<&BatteryInfo> = Vec::new();
        let ghost ord = order@;
        let mut j: usize = 0;
        while j < order.len()
            invariant
                j <= order.len(),
                order.len() == known.len(),
                known == entries_view(self.known_battery_devices@),
                is_permutation_of_range(order@, known.len()),
                list@.len() == j,
                forall|m: int| 0 <= m < j ==> (#[trigger] list@[m])@ == known[order@[m] as int].1,
            decreases order.len() - j,
        {
            let k = order[j];
            list.push(&self.known_battery_devices[k].1);
            j = j + 1;
        }
        proof {
            assert(battery_listing(known, list@, ord));
            lemma_battery_listing_sorted(known, list@, ord);
        }
        list
    }
}

} // verus!
