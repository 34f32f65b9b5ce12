//! One network interface of the machine, and the rule that decides from its
//! kernel attributes whether it is live.

use vstd::prelude::*;
use crate::text::{opt_view, opt_views, same_text, trim_newlines, trimmed, view_of};

verus! {

/// How often a link is brought up before its interface is given up.
pub const MAX_ATTEMPTS: usize = 10;

/// A live interface: its name and its hardware address.
#[derive(Debug)]
pub struct Interface {
    pub address: String,
    pub iface: String,
}

/// An `Interface` as the contracts speak of it.
pub struct InterfaceView {
    pub address: Seq<char>,
    pub iface: Seq<char>,
}

impl View for Interface {
    type V = InterfaceView;

    open spec fn view(&self) -> InterfaceView {
        InterfaceView { address: self.address@, iface: self.iface@ }
    }
}

impl Clone for Interface {
    fn clone(&self) -> (copy: Interface)
        ensures
            copy@ == self@,
    {
        Interface { address: self.address.clone(), iface: self.iface.clone() }
    }
}

/// What the attribute files of one interface hold, as they were read:
/// `None` stands for a file that could not be read.
#[derive(Debug)]
pub struct Readings {
    pub addr_assign_type: Option<String>,
    /// What `carrier` holds at first, and then after each attempt to bring
    /// the link up. An attempt that the list has no entry for finds the file
    /// unreadable.
    pub carrier: Vec<Option<String>>,
    pub address: Option<String>,
}

/// A `Readings` as the contracts speak of it.
pub struct ReadingsView {
    pub addr_assign_type: Option<Seq<char>>,
    pub carrier: Seq<Option<Seq<char>>>,
    pub address: Option<Seq<char>>,
}

impl View for Readings {
    type V = ReadingsView;

    open spec fn view(&self) -> ReadingsView {
        ReadingsView {
            addr_assign_type: opt_view(self.addr_assign_type),
            carrier: opt_views(self.carrier@),
            address: opt_view(self.address),
        }
    }
}

/// The name of the loopback interface.
pub open spec fn loopback() -> Seq<char> {
    "lo"@
}

/// The value of an attribute file: what was read, without the line feeds
/// around it.
pub open spec fn attribute(raw: Option<Seq<char>>) -> Option<Seq<char>> {
    match raw {
        Some(text) => Some(trimmed(text)),
        None => None,
    }
}

/// Whether what was read from `carrier` says that the link is up.
pub open spec fn carrier_up(raw: Option<Seq<char>>) -> bool {
    attribute(raw) == Some("1"@)
}

/// Whether what was read from `addr_assign_type` says that the address is
/// the permanent one of the device.
pub open spec fn permanent_address(raw: Option<Seq<char>>) -> bool {
    attribute(raw) == Some("0"@)
}

/// What `carrier` holds after `attempts` attempts to bring the link up.
pub open spec fn carrier_after(carrier: Seq<Option<Seq<char>>>, attempts: int) -> Option<
    Seq<char>,
> {
    if 0 <= attempts < carrier.len() {
        carrier[attempts]
    } else {
        None
    }
}

/// Whether the link counts as up: it is up at first, or, unless nothing may
/// be changed, after one of at most ten attempts to bring it up.
pub open spec fn is_live(noop: bool, carrier: Seq<Option<Seq<char>>>) -> bool {
    carrier_up(carrier_after(carrier, 0)) || (!noop && exists|k: int|
        1 <= k <= MAX_ATTEMPTS && carrier_up(#[trigger] carrier_after(carrier, k)))
}

/// The live interface that `name` stands for, if it is one: not the
/// loopback, with a permanent address, a link that is up, and a readable
/// hardware address.
pub open spec fn live_interface(name: Seq<char>, noop: bool, readings: ReadingsView) -> Option<
    InterfaceView,
> {
    if name == loopback() {
        None
    } else if !permanent_address(readings.addr_assign_type) {
        None
    } else if !is_live(noop, readings.carrier) {
        None
    } else {
        match attribute(readings.address) {
            Some(address) => Some(InterfaceView { address, iface: name }),
            None => None,
        }
    }
}

/// The loopback is no live interface, whatever its attributes hold.
pub proof fn lemma_loopback_excluded(noop: bool, readings: ReadingsView)
    ensures
        live_interface(loopback(), noop, readings) is None,
{
}

/// No live interface is named like the loopback.
pub proof fn lemma_live_is_not_loopback(name: Seq<char>, noop: bool, readings: ReadingsView)
    ensures
        live_interface(name, noop, readings) matches Some(interface) ==> interface.iface
            != loopback(),
{
}

/// An interface whose link is down at first and after each of the ten
/// attempts is not live.
pub proof fn lemma_exhausted_is_excluded(name: Seq<char>, noop: bool, readings: ReadingsView)
    requires
        forall|k: int|
            0 <= k <= MAX_ATTEMPTS ==> !carrier_up(#[trigger] carrier_after(readings.carrier, k)),
    ensures
        live_interface(name, noop, readings) is None,
{
}

/// Where nothing may be changed, only the first reading of the carrier
/// counts.
pub proof fn lemma_noop_reads_once(carrier: Seq<Option<Seq<char>>>)
    ensures
        is_live(true, carrier) == carrier_up(carrier_after(carrier, 0)),
{
}

/// The value of an attribute file.
pub fn get_file_value(raw: &Option<String>) -> (value: Option<String>)
    ensures
        opt_view(value) == attribute(opt_view(*raw)),
{
    match raw {
        Some(text) => Some(trim_newlines(text.as_str())),
        None => None,
    }
}

/// Whether a reading of `carrier` says that the link is up.
pub fn reads_up(raw: &Option<String>) -> (up: bool)
    ensures
        up == carrier_up(opt_view(*raw)),
{
    match get_file_value(raw) {
        Some(value) => same_text(value.as_str(), "1"),
        None => false,
    }
}

/// Whether a reading of `addr_assign_type` names a permanent address.
pub fn reads_permanent(raw: &Option<String>) -> (permanent: bool)
    ensures
        permanent == permanent_address(opt_view(*raw)),
{
    match get_file_value(raw) {
        Some(value) => same_text(value.as_str(), "0"),
        None => false,
    }
}

/// Whether a link counts as up, given what its `carrier` holds at first and
/// after each attempt to bring it up.
pub fn is_interface_live(noop: bool, carrier: &Vec<Option<String>>) -> (live: bool)
    ensures
        live == is_live(noop, opt_views(carrier@)),
{
    let ghost readings = opt_views(carrier@);
    if carrier.len() > 0 && reads_up(&carrier[0]) {
        return true;
    }
    if noop {
        return false;
    }
    let mut attempt: usize = 1;
    while attempt <= MAX_ATTEMPTS
        invariant
            1 <= attempt <= MAX_ATTEMPTS + 1,
            !noop,
            readings == opt_views(carrier@),
            forall|k: int| 0 <= k < attempt ==> !carrier_up(#[trigger] carrier_after(readings, k)),
        decreases MAX_ATTEMPTS + 1 - attempt,
    {
        if attempt < carrier.len() && reads_up(&carrier[attempt]) {
            proof {
                assert(carrier_up(carrier_after(readings, attempt as int)));
            }
            return true;
        }
        attempt = attempt + 1;
    }
    false
}

impl Interface {
    /// The live interface named `name`, if its attributes make it one.
    pub fn new(name: &str, noop: bool, readings: &Readings) -> (interface: Option<Interface>)
        ensures
            view_of(interface) == live_interface(
                name@,
                noop,
                readings@,
            ),
    {
        if same_text(name, "lo") {
            return None;
        }
        if !reads_permanent(&readings.addr_assign_type) {
            return None;
        }
        if !is_interface_live(noop, &readings.carrier) {
            return None;
        }
        match get_file_value(&readings.address) {
            Some(address) => Some(Interface { address, iface: String::from_str(name) }),
            None => None,
        }
    }
}

} // verus!
