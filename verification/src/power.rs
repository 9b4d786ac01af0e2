//! AC power and battery percentage, from `/sys/class/power_supply`.
//!
//! One scan serves two condition kinds, because they come from the same
//! directory. Any supply reporting online means the machine is on external
//! power; with two batteries, the lower one is the one that will run out.

use vstd::prelude::*;

use crate::provider::{Answer, Cadence, POWER_POLL_SECONDS, ProviderKind, unavailable};
use crate::roots::{ReadError, Roots, path_join};
use crate::text::{chars_eq, chars_of, parse_u64, parse_u64_chars, trim, trim_chars};

verus! {

/// What one scan of the power supplies found.
#[derive(Clone, Copy, Debug, Default, PartialEq, Eq, Structural)]
pub struct PowerReading {
    /// `None` when no mains supply answered at all, which is what a desktop
    /// with no charger node looks like.
    pub ac_connected: Option<bool>,
    /// `None` when the machine has no readable battery.
    pub battery_percent: Option<u8>,
    /// Whether any battery node was found, answered from the hardware rather
    /// than guessed from the chassis type.
    pub has_battery: bool,
}

/// One node of `/sys/class/power_supply`, as read at the edge.
#[derive(Debug, PartialEq, Eq)]
pub struct SupplyEntry {
    /// The raw contents of `type`, `None` when it could not be read.
    pub supply_type: Option<String>,
    /// The raw contents of `online`, read only for an external supply.
    pub online: Option<String>,
    /// The raw contents of `capacity`, read only for a battery.
    pub capacity: Option<String>,
}

/// Types that deliver external power: mains, and USB-C power delivery.
pub open spec fn is_mains_kind(t: Seq<char>) -> bool {
    t == "Mains"@ || t == "USB"@ || t == "USB_PD"@ || t == "USB_PD_DRP"@
}

pub open spec fn is_battery_kind(t: Seq<char>) -> bool {
    t == "Battery"@
}

/// One node folded into the reading so far.
pub open spec fn fold_supply(r: PowerReading, e: SupplyEntry) -> PowerReading {
    match e.supply_type {
        None => r,
        Some(raw_type) => {
            let t = trim(raw_type@);
            if is_mains_kind(t) {
                match e.online {
                    Some(raw) => match parse_u64(trim(raw@)) {
                        Some(online) => PowerReading {
                            ac_connected: Some(
                                (r.ac_connected matches Some(true)) || online != 0,
                            ),
                            ..r
                        },
                        None => r,
                    },
                    None => r,
                }
            } else if is_battery_kind(t) {
                let r = PowerReading { has_battery: true, ..r };
                match e.capacity {
                    Some(raw) => match parse_u64(trim(raw@)) {
                        Some(capacity) => {
                            let percent: u8 = if capacity > 100 {
                                100
                            } else {
                                capacity as u8
                            };
                            PowerReading {
                                battery_percent: Some(
                                    match r.battery_percent {
                                        Some(existing) => if existing < percent {
                                            existing
                                        } else {
                                            percent
                                        },
                                        None => percent,
                                    },
                                ),
                                ..r
                            }
                        },
                        None => r,
                    },
                    None => r,
                }
            } else {
                r
            }
        },
    }
}

pub open spec fn reading_spec(es: Seq<SupplyEntry>) -> PowerReading
    decreases es.len(),
{
    if es.len() == 0 {
        PowerReading { ac_connected: None, battery_percent: None, has_battery: false }
    } else {
        fold_supply(reading_spec(es.drop_last()), es.last())
    }
}

/// Whether a node's `type` makes its `online` attribute worth reading.
pub fn is_mains_type(raw_type: &str) -> (b: bool)
    ensures
        b == is_mains_kind(trim(raw_type@)),
{
    let t = trim_chars(&chars_of(raw_type));
    chars_eq(&t, &chars_of("Mains")) || chars_eq(&t, &chars_of("USB")) || chars_eq(
        &t,
        &chars_of("USB_PD"),
    ) || chars_eq(&t, &chars_of("USB_PD_DRP"))
}

/// Whether a node's `type` makes its `capacity` attribute worth reading.
pub fn is_battery_type(raw_type: &str) -> (b: bool)
    ensures
        b == is_battery_kind(trim(raw_type@)),
{
    let t = trim_chars(&chars_of(raw_type));
    chars_eq(&t, &chars_of("Battery"))
}

fn parse_attribute(raw: &String) -> (r: Option<u64>)
    ensures
        r == parse_u64(trim(raw@)),
{
    parse_u64_chars(&trim_chars(&chars_of(raw.as_str())))
}

/// The value one of the two power kinds reports.
#[derive(Clone, Copy, Debug, PartialEq, Eq, Structural)]
pub enum PowerValue {
    AcConnected(bool),
    BatteryPercent(u8),
}

/// Reads the charger and the battery.
#[derive(Clone, Debug)]
pub struct PowerProvider {
    roots: Roots,
    kind: ProviderKind,
}

pub open spec fn key_no_mains_supply() -> Seq<char> {
    "awake.provider.no_mains_supply"@
}

pub open spec fn key_no_battery() -> Seq<char> {
    "awake.provider.no_battery"@
}

pub open spec fn key_wrong_provider() -> Seq<char> {
    "awake.provider.wrong_provider"@
}

impl PowerProvider {
    pub closed spec fn roots_view(&self) -> Roots {
        self.roots
    }

    pub closed spec fn kind_view(&self) -> ProviderKind {
        self.kind
    }

    /// The AC-power half.
    pub fn ac(roots: Roots) -> (p: Self)
        ensures
            p.roots_view() == roots,
            p.kind_view() == ProviderKind::AcPower,
    {
        PowerProvider { roots, kind: ProviderKind::AcPower }
    }

    /// The battery-percentage half.
    pub fn battery(roots: Roots) -> (p: Self)
        ensures
            p.roots_view() == roots,
            p.kind_view() == ProviderKind::BatteryPercent,
    {
        PowerProvider { roots, kind: ProviderKind::BatteryPercent }
    }

    pub fn kind(&self) -> (k: ProviderKind)
        ensures
            k == self.kind_view(),
    {
        self.kind
    }

    pub fn cadence(&self) -> (c: Cadence)
        ensures
            c == (Cadence::Poll { seconds: POWER_POLL_SECONDS }),
    {
        Cadence::Poll { seconds: POWER_POLL_SECONDS }
    }

    /// `/sys/class/power_supply` under this provider's roots.
    pub fn supplies_dir(&self) -> (p: String)
        ensures
            p@ == path_join(self.roots_view().sys_view(), "class/power_supply"@),
    {
        self.roots.sys_path("class/power_supply")
    }

    /// Folds every power supply node into one reading.
    ///
    /// A node with no readable type is skipped rather than failing the scan;
    /// a capacity past 100 is clamped rather than allowed to wrap; an
    /// unreadable capacity leaves the battery unknown rather than zero.
    pub fn read(listing: Result<Vec<SupplyEntry>, ReadError>) -> (r: Result<PowerReading, ReadError>)
        ensures
            match listing {
                Err(e) => r == Err::<PowerReading, ReadError>(e),
                Ok(es) => r == Ok::<PowerReading, ReadError>(reading_spec(es@)),
            },
    {
        let entries = match listing {
            Err(e) => return Err(e),
            Ok(es) => es,
        };
        let mut reading = PowerReading { ac_connected: None, battery_percent: None, has_battery: false };
        let mut i: usize = 0;
        while i < entries.len()
            invariant
                i <= entries.len(),
                reading == reading_spec(entries@.take(i as int)),
            decreases entries.len() - i,
        {
            assert(entries@.take(i + 1).drop_last() =~= entries@.take(i as int));
            assert(entries@.take(i + 1).last() == entries@[i as int]);
            let entry = &entries[i];
            match &entry.supply_type {
                None => {},
                Some(raw_type) => {
                    if is_mains_type(raw_type.as_str()) {
                        match &entry.online {
                            Some(raw) => match parse_attribute(raw) {
                                Some(online) => {
                                    let was = match reading.ac_connected {
                                        Some(b) => b,
                                        None => false,
                                    };
                                    reading.ac_connected = Some(was || online != 0);
                                },
                                None => {},
                            },
                            None => {},
                        }
                    } else if is_battery_type(raw_type.as_str()) {
                        reading.has_battery = true;
                        match &entry.capacity {
                            Some(raw) => match parse_attribute(raw) {
                                Some(capacity) => {
                                    let percent: u8 = if capacity > 100 {
                                        100
                                    } else {
                                        capacity as u8
                                    };
                                    reading.battery_percent = Some(
                                        match reading.battery_percent {
                                            Some(existing) => if existing < percent {
                                                existing
                                            } else {
                                                percent
                                            },
                                            None => percent,
                                        },
                                    );
                                },
                                None => {},
                            },
                            None => {},
                        }
                    }
                },
            }
            i += 1;
        }
        assert(entries@.take(i as int) =~= entries@);
        Ok(reading)
    }

    /// Whether this machine runs on a battery, which decides whether the
    /// battery stop threshold is on by default. A failed scan says no.
    pub fn has_battery(reading: Result<PowerReading, ReadError>) -> (b: bool)
        ensures
            b == (reading matches Ok(r) && r.has_battery),
    {
        match reading {
            Ok(r) => r.has_battery,
            Err(_) => false,
        }
    }

    /// What this half answers from one scan.
    ///
    /// A desktop has a charger and no battery, and saying "battery percentage
    /// is unavailable" there is the honest answer rather than a full battery
    /// forever.
    pub fn answer(&self, reading: Result<PowerReading, ReadError>) -> (a: Answer<PowerValue>)
        ensures
            match reading {
                Err(e) => a matches Answer::Unavailable { explanation } && explanation@
                    == e.explanation_view(),
                Ok(r) => match self.kind_view() {
                    ProviderKind::AcPower => match r.ac_connected {
                        Some(c) => a == Answer::Known(PowerValue::AcConnected(c)),
                        None => a matches Answer::Unavailable { explanation } && explanation@
                            == key_no_mains_supply(),
                    },
                    ProviderKind::BatteryPercent => match r.battery_percent {
                        Some(p) => a == Answer::Known(PowerValue::BatteryPercent(p)),
                        None => a matches Answer::Unavailable { explanation } && explanation@
                            == key_no_battery(),
                    },
                    _ => a matches Answer::Unavailable { explanation } && explanation@
                        == key_wrong_provider(),
                },
            },
    {
        match reading {
            Err(error) => Answer::Unavailable { explanation: error.explanation() },
            Ok(reading) => match self.kind {
                ProviderKind::AcPower => match reading.ac_connected {
                    Some(connected) => Answer::Known(PowerValue::AcConnected(connected)),
                    None => unavailable("awake.provider.no_mains_supply"),
                },
                ProviderKind::BatteryPercent => match reading.battery_percent {
                    Some(percent) => Answer::Known(PowerValue::BatteryPercent(percent)),
                    None => unavailable("awake.provider.no_battery"),
                },
                _ => unavailable("awake.provider.wrong_provider"),
            },
        }
    }
}

/// The reported battery percentage never exceeds a hundred, whatever the
/// drivers claimed.
pub proof fn lemma_battery_percent_at_most_hundred(es: Seq<SupplyEntry>)
    ensures
        reading_spec(es).battery_percent matches Some(p) ==> p <= 100,
    decreases es.len(),
{
    if es.len() > 0 {
        lemma_battery_percent_at_most_hundred(es.drop_last());
    }
}

/// The percentage one node reports: a battery whose capacity reads as a
/// number, clamped at a hundred.
pub open spec fn battery_capacity_of(e: SupplyEntry) -> Option<u8> {
    match (e.supply_type, e.capacity) {
        (Some(raw_type), Some(raw)) => if is_battery_kind(trim(raw_type@)) {
            match parse_u64(trim(raw@)) {
                Some(c) => Some(
                    if c > 100 {
                        100u8
                    } else {
                        c as u8
                    },
                ),
                None => None,
            }
        } else {
            None
        },
        _ => None,
    }
}

proof fn lemma_fold_battery(r: PowerReading, e: SupplyEntry)
    ensures
        fold_supply(r, e).battery_percent == match battery_capacity_of(e) {
            Some(c) => Some(
                match r.battery_percent {
                    Some(x) => if x < c {
                        x
                    } else {
                        c
                    },
                    None => c,
                },
            ),
            None => r.battery_percent,
        },
{
    reveal_strlit("Battery");
    reveal_strlit("Mains");
    reveal_strlit("USB");
    reveal_strlit("USB_PD");
    reveal_strlit("USB_PD_DRP");
    match e.supply_type {
        Some(raw_type) => {
            let t = trim(raw_type@);
            if is_battery_kind(t) {
                assert(t == "Battery"@);
                assert(!is_mains_kind(t)) by {
                    assert("Battery"@[0] != "Mains"@[0]);
                    assert("Battery"@[0] != "USB"@[0]);
                    assert("Battery"@[0] != "USB_PD"@[0]);
                    assert("Battery"@[0] != "USB_PD_DRP"@[0]);
                }
            }
        },
        None => {},
    }
}

/// With several batteries, the one that will run out first is reported: the
/// percentage is the lowest any battery reads, and it is one of them. With no
/// readable battery, there is no percentage at all rather than a made-up one.
pub proof fn lemma_battery_is_the_lowest(es: Seq<SupplyEntry>)
    ensures
        reading_spec(es).battery_percent matches Some(p) ==> {
            &&& forall|i: int|
                0 <= i < es.len() ==> (#[trigger] battery_capacity_of(es[i]) matches Some(c) ==> p <= c)
            &&& exists|i: int| 0 <= i < es.len() && #[trigger] battery_capacity_of(es[i]) == Some(p)
        },
        reading_spec(es).battery_percent is None ==> forall|i: int|
            0 <= i < es.len() ==> #[trigger] battery_capacity_of(es[i]) is None,
    decreases es.len(),
{
    if es.len() > 0 {
        let init = es.drop_last();
        lemma_battery_is_the_lowest(init);
        lemma_fold_battery(reading_spec(init), es.last());
        assert forall|i: int| 0 <= i < init.len() implies init[i] == es[i] by {}
        let last = es.last();
        assert(last == es[es.len() - 1]);
        match reading_spec(es).battery_percent {
            Some(p) => {
                match reading_spec(init).battery_percent {
                    Some(q) => {
                        let w = choose|i: int| 0 <= i < init.len() && #[trigger] battery_capacity_of(init[i]) == Some(q);
                        assert(battery_capacity_of(es[w]) == Some(q));
                    },
                    None => {},
                }
            },
            None => {},
        }
    }
}

/// One supply online is enough: a later node that is offline never turns an
/// earlier `online` back off.
pub proof fn lemma_online_is_sticky(es: Seq<SupplyEntry>, i: int)
    requires
        0 <= i <= es.len(),
        reading_spec(es.take(i)).ac_connected == Some(true),
    ensures
        reading_spec(es).ac_connected == Some(true),
    decreases es.len() - i,
{
    if i < es.len() {
        assert(es.take(i + 1).drop_last() =~= es.take(i));
        lemma_online_is_sticky(es, i + 1);
    } else {
        assert(es.take(i) =~= es);
    }
}

/// What one node says about external power: a node whose type is `Mains`,
/// `USB`, `USB_PD` or `USB_PD_DRP` and whose `online` reads as a number says
/// whether it is delivering power; every other node says nothing.
pub open spec fn mains_answer(e: SupplyEntry) -> Option<bool> {
    match (e.supply_type, e.online) {
        (Some(raw_type), Some(raw)) => {
            let t = trim(raw_type@);
            if t == "Mains"@ || t == "USB"@ || t == "USB_PD"@ || t == "USB_PD_DRP"@ {
                match parse_u64(trim(raw@)) {
                    Some(v) => Some(v != 0),
                    None => None,
                }
            } else {
                None
            }
        },
        _ => None,
    }
}

/// Whether a node is a battery.
pub open spec fn is_battery_node(e: SupplyEntry) -> bool {
    e.supply_type is Some && trim(e.supply_type->0@) == "Battery"@
}

proof fn lemma_fold_mains(r: PowerReading, e: SupplyEntry)
    ensures
        fold_supply(r, e).ac_connected == match mains_answer(e) {
            Some(b) => Some(r.ac_connected == Some(true) || b),
            None => r.ac_connected,
        },
        fold_supply(r, e).has_battery == (r.has_battery || is_battery_node(e)),
{
    reveal_strlit("Battery");
    reveal_strlit("Mains");
    reveal_strlit("USB");
    reveal_strlit("USB_PD");
    reveal_strlit("USB_PD_DRP");
    match e.supply_type {
        Some(raw_type) => {
            let t = trim(raw_type@);
            if is_battery_kind(t) {
                assert(!is_mains_kind(t)) by {
                    assert("Battery"@[0] != "Mains"@[0]);
                    assert("Battery"@[0] != "USB"@[0]);
                    assert("Battery"@[0] != "USB_PD"@[0]);
                    assert("Battery"@[0] != "USB_PD_DRP"@[0]);
                }
            }
            if is_mains_kind(t) {
                assert(!is_battery_kind(t)) by {
                    assert("Battery"@[0] != "Mains"@[0]);
                    assert("Battery"@[0] != "USB"@[0]);
                    assert("Battery"@[0] != "USB_PD"@[0]);
                    assert("Battery"@[0] != "USB_PD_DRP"@[0]);
                }
            }
        },
        None => {},
    }
}

/// The machine is on external power exactly when some mains or USB supply
/// reports itself online; it is known to be off it when some answered and
/// none is online; and nothing is known when no such supply answered at all.
/// A battery is found exactly when some node's type is `Battery`.
pub proof fn lemma_ac_is_any_supply_online(es: Seq<SupplyEntry>)
    ensures
        reading_spec(es).ac_connected == Some(true) <==> exists|i: int|
            0 <= i < es.len() && #[trigger] mains_answer(es[i]) == Some(true),
        reading_spec(es).ac_connected is None <==> forall|i: int|
            0 <= i < es.len() ==> #[trigger] mains_answer(es[i]) is None,
        reading_spec(es).has_battery <==> exists|i: int| 0 <= i < es.len() && #[trigger] is_battery_node(es[i]),
    decreases es.len(),
{
    if es.len() > 0 {
        let init = es.drop_last();
        lemma_ac_is_any_supply_online(init);
        lemma_fold_mains(reading_spec(init), es.last());
        assert forall|i: int| 0 <= i < init.len() implies init[i] == es[i] by {}
        assert(es.last() == es[es.len() - 1]);
        if exists|i: int| 0 <= i < es.len() && #[trigger] mains_answer(es[i]) == Some(true) {
            let i = choose|i: int| 0 <= i < es.len() && #[trigger] mains_answer(es[i]) == Some(true);
            if i < init.len() {
                assert(mains_answer(init[i]) == Some(true));
            }
        }
        if reading_spec(init).ac_connected == Some(true) {
            let i = choose|i: int| 0 <= i < init.len() && #[trigger] mains_answer(init[i]) == Some(true);
            assert(mains_answer(es[i]) == Some(true));
        }
        if !(forall|i: int| 0 <= i < es.len() ==> #[trigger] mains_answer(es[i]) is None) {
            let i = choose|i: int| !(0 <= i < es.len() ==> #[trigger] mains_answer(es[i]) is None);
            if i < init.len() {
                assert(mains_answer(init[i]) is Some);
            }
        }
        if exists|i: int| 0 <= i < es.len() && #[trigger] is_battery_node(es[i]) {
            let i = choose|i: int| 0 <= i < es.len() && #[trigger] is_battery_node(es[i]);
            if i < init.len() {
                assert(is_battery_node(init[i]));
            }
        }
        if reading_spec(init).has_battery {
            let i = choose|i: int| 0 <= i < init.len() && #[trigger] is_battery_node(init[i]);
            assert(is_battery_node(es[i]));
        }
    }
}

} // verus!
