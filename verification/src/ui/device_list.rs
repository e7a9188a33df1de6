//! The device picker's list: which row shows what, which device a clicked
//! row selects, and what the picker's button says.

use vstd::prelude::*;
use crate::ui::device_selector::{Device, DeviceView, display_name_spec, tail_cut_ok};
use crate::xr::device_id_of;
use crate::ui::state::find_device_spec;

verus! {

/// A row of the picker list.
#[derive(Clone, Debug)]
pub enum DeviceRow {
    /// The "(None)" row that clears the selection.
    NoDevice,
    /// A category heading (not selectable).
    CategoryHeader(String),
    /// The device at this position of the device list.
    Device(usize),
}

/// A row as plain values.
pub enum DeviceRowView {
    NoDevice,
    CategoryHeader(Seq<char>),
    Device(int),
}

/// A row as plain values.
pub open spec fn row_view(r: DeviceRow) -> DeviceRowView {
    match r {
        DeviceRow::NoDevice => DeviceRowView::NoDevice,
        DeviceRow::CategoryHeader(s) => DeviceRowView::CategoryHeader(s@),
        DeviceRow::Device(i) => DeviceRowView::Device(i as int),
    }
}

/// A heading goes before device `i` when its category differs from the
/// previous device's (the first device's is compared with the empty name).
pub open spec fn starts_category(devs: Seq<DeviceView>, i: int) -> bool {
    devs[i].category != (if i == 0 { Seq::<char>::empty() } else { devs[i - 1].category })
}

/// The rows of the list: "(None)", then each device, preceded by a heading
/// whenever its category starts.
pub open spec fn layout_spec(devs: Seq<DeviceView>) -> Seq<DeviceRowView>
    decreases devs.len(),
{
    if devs.len() == 0 {
        seq![DeviceRowView::NoDevice]
    } else {
        let n = devs.len() - 1;
        let prefix = layout_spec(devs.drop_last());
        if starts_category(devs, n) {
            prefix.push(DeviceRowView::CategoryHeader(devs[n].category)).push(DeviceRowView::Device(n))
        } else {
            prefix.push(DeviceRowView::Device(n))
        }
    }
}

/// What activating a row does.
#[derive(Clone, Copy, Debug, PartialEq, Eq, Structural)]
pub enum RowActivation {
    /// Clear the selection.
    SelectNone,
    /// Select the device at this position.
    SelectDevice(usize),
    /// Nothing to select (a heading, or no such row).
    Nothing,
}

/// What activating row `index` of the layout does.
pub open spec fn activation_spec(devs: Seq<DeviceView>, index: int) -> RowActivation {
    if index == 0 {
        RowActivation::SelectNone
    } else if 0 < index < layout_spec(devs).len() {
        match layout_spec(devs)[index] {
            DeviceRowView::Device(i) => RowActivation::SelectDevice(i as usize),
            _ => RowActivation::Nothing,
        }
    } else {
        RowActivation::Nothing
    }
}

/// The layout has one row for "(None)", one per device and one per heading,
/// and device rows hold positions below the device count.
pub proof fn lemma_layout_shape(devs: Seq<DeviceView>)
    ensures
        layout_spec(devs).len() >= devs.len() + 1,
        layout_spec(devs)[0] == DeviceRowView::NoDevice,
        forall|r: int| 0 < r < layout_spec(devs).len() ==> !(#[trigger] layout_spec(devs)[r] is NoDevice),
        forall|r: int| 0 <= r < layout_spec(devs).len() && (#[trigger] layout_spec(devs)[r]) is Device
            ==> 0 <= layout_spec(devs)[r]->Device_0 < devs.len(),
        devs.len() > 0 ==> layout_spec(devs).last() == DeviceRowView::Device(devs.len() - 1),
    decreases devs.len(),
{
    if devs.len() > 0 {
        let p = devs.drop_last();
        lemma_layout_shape(p);
        let lp = layout_spec(p);
        let l = layout_spec(devs);
        assert forall|r: int| 0 <= r < l.len() && (#[trigger] l[r]) is Device implies 0 <= l[r]->Device_0 < devs.len() by {
            if r < lp.len() {
                assert(l[r] == lp[r]);
            }
        }
        assert forall|r: int| 0 < r < l.len() implies !(#[trigger] l[r] is NoDevice) by {
            if r < lp.len() {
                assert(l[r] == lp[r]);
            }
        }
        assert(l[0] == lp[0]);
    }
}

/// Law: every device has a row, and activating that row selects that device.
pub proof fn lemma_device_row_selects_device(devs: Seq<DeviceView>, i: int)
    requires
        0 <= i < devs.len(),
        devs.len() <= usize::MAX,
    ensures
        exists|r: int| 0 < r < layout_spec(devs).len()
            && #[trigger] layout_spec(devs)[r] == DeviceRowView::Device(i)
            && activation_spec(devs, r) == RowActivation::SelectDevice(i as usize),
    decreases devs.len(),
{
    let p = devs.drop_last();
    lemma_layout_shape(devs);
    lemma_layout_shape(p);
    let l = layout_spec(devs);
    let lp = layout_spec(p);
    if i == devs.len() - 1 {
        let r = l.len() - 1;
        assert(l[r] == DeviceRowView::Device(i));
        assert(activation_spec(devs, r) == RowActivation::SelectDevice(i as usize));
    } else {
        assert forall|j: int| 0 <= j < p.len() implies #[trigger] p[j] == devs[j] by {}
        lemma_device_row_selects_device(p, i);
        let r = choose|r: int| 0 < r < lp.len() && #[trigger] lp[r] == DeviceRowView::Device(i)
            && activation_spec(p, r) == RowActivation::SelectDevice(i as usize);
        assert(l[r] == lp[r]);
        assert(activation_spec(devs, r) == RowActivation::SelectDevice(i as usize));
    }
}

/// The rows the picker list shows for `devices`.
pub fn row_layout(devices: &Vec<Device>) -> (rows: Vec<DeviceRow>)
    ensures
        rows@.map_values(|r: DeviceRow| row_view(r)) == layout_spec(devices@.map_values(|d: Device| d@)),
{
    let ghost devs = devices@.map_values(|d: Device| d@);
    let mut rows: Vec<DeviceRow> = Vec::new();
    rows.push(DeviceRow::NoDevice);
    proof {
        assert(devs.take(0).len() == 0);
        assert(rows@.map_values(|r: DeviceRow| row_view(r)) =~= layout_spec(devs.take(0)));
    }
    let mut current = String::new();
    let mut i: usize = 0;
    while i < devices.len()
        invariant
            i <= devices.len(),
            devs == devices@.map_values(|d: Device| d@),
            rows@.map_values(|r: DeviceRow| row_view(r)) == layout_spec(devs.take(i as int)),
            current@ == (if i == 0 { Seq::<char>::empty() } else { devs[i - 1].category }),
        decreases devices.len() - i,
    {
        let ghost before = rows@;
        let ghost t = devs.take(i as int + 1);
        proof {
            assert(t.drop_last() =~= devs.take(i as int));
            assert(t[i as int] == devs[i as int]);
            if i > 0 {
                assert(t[i - 1] == devs[i - 1]);
            }
        }
        if !(devices[i].category == current) {
            current = devices[i].category.clone();
            rows.push(DeviceRow::CategoryHeader(current.clone()));
            rows.push(DeviceRow::Device(i));
            proof {
                assert(rows@.map_values(|r: DeviceRow| row_view(r)) =~= before.map_values(|r: DeviceRow| row_view(r))
                    .push(DeviceRowView::CategoryHeader(devs[i as int].category)).push(DeviceRowView::Device(i as int)));
            }
        } else {
            rows.push(DeviceRow::Device(i));
            proof {
                assert(rows@.map_values(|r: DeviceRow| row_view(r)) =~= before.map_values(|r: DeviceRow| row_view(r))
                    .push(DeviceRowView::Device(i as int)));
            }
        }
        i = i + 1;
    }
    proof {
        assert(devs.take(i as int) =~= devs);
    }
    rows
}

/// What activating row `index` of the list does.
pub fn row_activation(devices: &Vec<Device>, index: i32) -> (a: RowActivation)
    ensures
        a == activation_spec(devices@.map_values(|d: Device| d@), index as int),
{
    if index == 0 {
        return RowActivation::SelectNone;
    }
    let rows = row_layout(devices);
    if index > 0 && (index as usize) < rows.len() {
        let k = index as usize;
        proof {
            assert(rows@.map_values(|r: DeviceRow| row_view(r))[k as int] == row_view(rows@[k as int]));
        }
        match rows[k] {
            DeviceRow::Device(i) => RowActivation::SelectDevice(i),
            _ => RowActivation::Nothing,
        }
    } else {
        RowActivation::Nothing
    }
}

/// A string slice option as plain values.
pub open spec fn opt_str_view(o: Option<&str>) -> Option<Seq<char>> {
    match o {
        Some(s) => Some(s@),
        None => None,
    }
}

/// What the picker's button shows: the text and whether it is highlighted.
pub open spec fn button_label_spec(devs: Seq<DeviceView>, selected: Option<Seq<char>>) -> (Seq<char>, bool) {
    match selected {
        Some(id) => match find_device_spec(devs, id) {
            Some(d) => (display_name_spec(d), true),
            None => (id, true),
        },
        None => ("(None)"@, false),
    }
}

/// The button text for the current selection: the selected device's label,
/// the bare identifier when that device is not listed, or "(None)".
pub fn button_label(devices: &Vec<Device>, selected_id: Option<&str>) -> (r: (String, bool))
    requires
        forall|i: int| 0 <= i < devices.len()
            && opt_str_view(selected_id) == Some(device_id_of(devices@[i].serial@, devices@[i].name@))
            ==> tail_cut_ok(#[trigger] devices@[i]@),
    ensures
        r.0@ == button_label_spec(devices@.map_values(|d: Device| d@), opt_str_view(selected_id)).0,
        r.1 == button_label_spec(devices@.map_values(|d: Device| d@), opt_str_view(selected_id)).1,
{
    match selected_id {
        Some(id) => {
            let ghost all = devices@.map_values(|x: Device| x@);
            let key = id.to_owned();
            let mut i: usize = 0;
            assert(all.skip(0) =~= all);
            while i < devices.len()
                invariant
                    i <= devices.len(),
                    all == devices@.map_values(|x: Device| x@),
                    key@ == id@,
                    selected_id == Some(id),
                    forall|j: int| 0 <= j < devices.len()
                        && opt_str_view(selected_id) == Some(device_id_of(devices@[j].serial@, devices@[j].name@))
                        ==> tail_cut_ok(#[trigger] devices@[j]@),
                    find_device_spec(all, id@) == find_device_spec(all.skip(i as int), id@),
                decreases devices.len() - i,
            {
                proof {
                    assert(all.skip(i as int)[0] == devices@[i as int]@);
                    assert(all.skip(i as int).drop_first() =~= all.skip(i as int + 1));
                }
                let uid = devices[i].unique_id().to_owned();
                if uid == key {
                    proof {
                        assert(find_device_spec(all.skip(i as int), id@) == Some(devices@[i as int]@));
                    }
                    let name = devices[i].display_name();
                    proof {
                        assert(name@ == display_name_spec(devices@[i as int]@));
                        assert(find_device_spec(all, id@) == Some(devices@[i as int]@));
                        assert(button_label_spec(all, Some(id@)) == (display_name_spec(devices@[i as int]@), true));
                    }
                    return (name, true);
                }
                i = i + 1;
            }
            (key, true)
        },
        None => ("(None)".to_owned(), false),
    }
}

} // verus!
