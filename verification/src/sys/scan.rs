//! The scan of the interfaces as a sequence of steps. The scan says what it
//! needs next, a file read or a link brought up; its caller does that and
//! hands back what came of it.

use vstd::prelude::*;
use crate::sys::interface::{
    attribute, carrier_up, get_file_value, loopback, permanent_address, reads_permanent,
    reads_up, Interface, InterfaceView, MAX_ATTEMPTS,
};
use crate::text::{join_path, joined, opt_view, same_text, string_views};

verus! {

/// What the scan waits for about the candidate it looks at.
#[derive(Clone, Copy, Debug, PartialEq, Eq, Structural)]
pub enum Step {
    /// The value of `addr_assign_type`.
    AssignType,
    /// The value of `carrier`.
    Carrier,
    /// An attempt to bring the link up.
    BringUp,
    /// The value of `address`.
    Address,
}

/// What the caller of the scan does next.
#[derive(Debug)]
pub enum Action {
    /// Read the file at this path and hand back what it holds.
    Read(String),
    /// Bring up the link of the interface of this name.
    BringUp(String),
    /// Nothing: the scan is over.
    Done,
}

/// An `Action` as the contracts speak of it.
pub enum ActionView {
    Read(Seq<char>),
    BringUp(Seq<char>),
    Done,
}

impl View for Action {
    type V = ActionView;

    open spec fn view(&self) -> ActionView {
        match self {
            Action::Read(path) => ActionView::Read(path@),
            Action::BringUp(name) => ActionView::BringUp(name@),
            Action::Done => ActionView::Done,
        }
    }
}

/// A scan under way.
#[derive(Debug)]
pub struct Scan {
    root_path: String,
    candidates: Vec<String>,
    noop: bool,
    position: usize,
    step: Step,
    attempts: usize,
    interfaces: Vec<Interface>,
}

/// A `Scan` as the contracts speak of it.
pub struct ScanView {
    /// The directory that holds one directory per interface.
    pub root_path: Seq<char>,
    /// The names to look at, in order.
    pub candidates: Seq<Seq<char>>,
    /// Whether the scan must leave the machine as it is.
    pub noop: bool,
    /// Which candidate the scan looks at; past the last one when it is over.
    pub position: int,
    pub step: Step,
    /// How often the link of this candidate has been brought up.
    pub attempts: int,
    /// The live interfaces found so far.
    pub interfaces: Seq<InterfaceView>,
}

/// The views of a run of interfaces.
pub open spec fn interface_views(interfaces: Seq<Interface>) -> Seq<InterfaceView> {
    Seq::new(interfaces.len(), |i: int| interfaces[i]@)
}

/// The first candidate at or after `from` that is not the loopback; the
/// number of candidates where there is none.
pub open spec fn next_candidate(candidates: Seq<Seq<char>>, from: int) -> int
    decreases candidates.len() - from,
{
    if from < 0 || from >= candidates.len() {
        candidates.len() as int
    } else if candidates[from] != loopback() {
        from
    } else {
        next_candidate(candidates, from + 1)
    }
}

/// The scan at its start.
pub open spec fn started(root_path: Seq<char>, candidates: Seq<Seq<char>>, noop: bool) -> ScanView {
    ScanView {
        root_path,
        candidates,
        noop,
        position: next_candidate(candidates, 0),
        step: Step::AssignType,
        attempts: 0,
        interfaces: Seq::empty(),
    }
}

/// Whether the scan is over.
pub open spec fn finished(scan: ScanView) -> bool {
    scan.position >= scan.candidates.len()
}

/// The path of the attribute file `attr` of the interface `name`.
pub open spec fn attribute_path(root_path: Seq<char>, name: Seq<char>, attr: Seq<char>) -> Seq<
    char,
> {
    joined(joined(root_path, name), attr)
}

/// What the scan asks for.
pub open spec fn action_of(scan: ScanView) -> ActionView {
    if finished(scan) {
        ActionView::Done
    } else {
        let name = scan.candidates[scan.position];
        match scan.step {
            Step::AssignType => ActionView::Read(
                attribute_path(scan.root_path, name, "addr_assign_type"@),
            ),
            Step::Carrier => ActionView::Read(attribute_path(scan.root_path, name, "carrier"@)),
            Step::BringUp => ActionView::BringUp(name),
            Step::Address => ActionView::Read(attribute_path(scan.root_path, name, "address"@)),
        }
    }
}

/// The scan after it has left its candidate behind.
pub open spec fn passed_on(scan: ScanView) -> ScanView {
    ScanView {
        position: next_candidate(scan.candidates, scan.position + 1),
        step: Step::AssignType,
        attempts: 0,
        ..scan
    }
}

/// The scan after `outcome` has come back for what it asked for: the content
/// of the file, nothing where the file could not be read, and nothing for an
/// attempt to bring a link up.
pub open spec fn advanced(scan: ScanView, outcome: Option<Seq<char>>) -> ScanView {
    if finished(scan) {
        scan
    } else {
        match scan.step {
            Step::AssignType => if permanent_address(outcome) {
                ScanView { step: Step::Carrier, ..scan }
            } else {
                passed_on(scan)
            },
            Step::Carrier => if carrier_up(outcome) {
                ScanView { step: Step::Address, ..scan }
            } else if scan.noop || scan.attempts >= MAX_ATTEMPTS {
                passed_on(scan)
            } else {
                ScanView { step: Step::BringUp, ..scan }
            },
            Step::BringUp => ScanView { step: Step::Carrier, attempts: scan.attempts + 1, ..scan },
            Step::Address => match attribute(outcome) {
                Some(address) => passed_on(
                    ScanView {
                        interfaces: scan.interfaces.push(
                            InterfaceView { address, iface: scan.candidates[scan.position] },
                        ),
                        ..scan
                    },
                ),
                None => passed_on(scan),
            },
        }
    }
}

/// What holds of every scan: it never looks at the loopback and never holds
/// it, it brings a link up only where it may change the machine, and at most
/// ten times.
pub open spec fn scan_wf(scan: ScanView) -> bool {
    &&& 0 <= scan.position <= scan.candidates.len()
    &&& 0 <= scan.attempts <= MAX_ATTEMPTS
    &&& scan.position < scan.candidates.len() ==> scan.candidates[scan.position] != loopback()
    &&& scan.step == Step::AssignType ==> scan.attempts == 0
    &&& scan.step == Step::BringUp ==> !scan.noop && scan.attempts < MAX_ATTEMPTS
    &&& scan.attempts > 0 ==> !scan.noop
    &&& forall|i: int|
        0 <= i < scan.interfaces.len() ==> (#[trigger] scan.interfaces[i]).iface != loopback()
}

/// An upper bound on the steps that the scan still takes.
pub open spec fn steps_left(scan: ScanView) -> int {
    if finished(scan) {
        0
    } else {
        (scan.candidates.len() - scan.position - 1) * 23 + match scan.step {
            Step::AssignType => 23,
            Step::Carrier => 22 - 2 * scan.attempts,
            Step::BringUp => 21 - 2 * scan.attempts,
            Step::Address => 1,
        }
    }
}

/// `next_candidate` yields a position in range that holds no loopback.
pub proof fn lemma_next_candidate(candidates: Seq<Seq<char>>, from: int)
    requires
        0 <= from <= candidates.len(),
    ensures
        from <= next_candidate(candidates, from) <= candidates.len(),
        next_candidate(candidates, from) < candidates.len() ==> candidates[next_candidate(
            candidates,
            from,
        )] != loopback(),
        forall|i: int|
            from <= i < next_candidate(candidates, from) ==> #[trigger] candidates[i]
                == loopback(),
    decreases candidates.len() - from,
{
    if from < candidates.len() && candidates[from] == loopback() {
        lemma_next_candidate(candidates, from + 1);
    }
}

/// The scan starts well-formed.
pub proof fn lemma_started_wf(root_path: Seq<char>, candidates: Seq<Seq<char>>, noop: bool)
    ensures
        scan_wf(started(root_path, candidates, noop)),
{
    lemma_next_candidate(candidates, 0);
}

/// Each step keeps the scan well-formed and brings it closer to its end: a
/// scan of `n` candidates is over after at most `23 * n` steps.
pub proof fn lemma_advance(scan: ScanView, outcome: Option<Seq<char>>)
    requires
        scan_wf(scan),
    ensures
        scan_wf(advanced(scan, outcome)),
        !finished(scan) ==> 0 <= steps_left(advanced(scan, outcome)) < steps_left(scan),
        steps_left(scan) <= 23 * scan.candidates.len(),
        advanced(scan, outcome).candidates == scan.candidates,
        advanced(scan, outcome).noop == scan.noop,
        advanced(scan, outcome).root_path == scan.root_path,
{
    if !finished(scan) {
        lemma_next_candidate(scan.candidates, scan.position + 1);
    }
}

/// The scan brings a link up only where it may change the machine, and only
/// after the carrier of that interface has read as down.
pub proof fn lemma_bring_up_is_allowed(scan: ScanView)
    requires
        scan_wf(scan),
        action_of(scan) is BringUp,
    ensures
        !scan.noop,
        scan.attempts < MAX_ATTEMPTS,
{
}

/// A scan that must leave the machine as it is never asks for a link to be
/// brought up, whatever comes back for what it asks.
pub proof fn lemma_noop_never_brings_up(scan: ScanView, outcome: Option<Seq<char>>)
    requires
        scan_wf(scan),
        scan.noop,
    ensures
        !(action_of(scan) is BringUp),
        !(action_of(advanced(scan, outcome)) is BringUp),
{
    lemma_advance(scan, outcome);
}

impl View for Scan {
    type V = ScanView;

    closed spec fn view(&self) -> ScanView {
        ScanView {
            root_path: self.root_path@,
            candidates: string_views(self.candidates@),
            noop: self.noop,
            position: self.position as int,
            step: self.step,
            attempts: self.attempts as int,
            interfaces: interface_views(self.interfaces@),
        }
    }
}

impl Scan {
    /// The scan is well-formed.
    pub open spec fn wf(&self) -> bool {
        scan_wf(self@)
    }

    /// Every scan is well-formed.
    #[verifier::type_invariant]
    spec fn always_wf(&self) -> bool {
        scan_wf(self@)
    }

    /// Moves from `from` to the next candidate that is not the loopback.
    fn skip_loopbacks(candidates: &Vec<String>, from: usize) -> (position: usize)
        requires
            from <= candidates@.len(),
        ensures
            position == next_candidate(string_views(candidates@), from as int),
    {
        let mut position = from;
        while position < candidates.len() && same_text(candidates[position].as_str(), "lo")
            invariant
                from <= position <= candidates@.len(),
                next_candidate(string_views(candidates@), from as int) == next_candidate(
                    string_views(candidates@),
                    position as int,
                ),
            decreases candidates@.len() - position,
        {
            position = position + 1;
        }
        position
    }

    /// Starts a scan of `candidates`, whose directories lie in `root_path`.
    pub fn new(root_path: String, candidates: Vec<String>, noop: bool) -> (scan: Scan)
        ensures
            scan.wf(),
            scan@ == started(root_path@, string_views(candidates@), noop),
    {
        let position = Scan::skip_loopbacks(&candidates, 0);
        proof {
            lemma_started_wf(root_path@, string_views(candidates@), noop);
            assert(interface_views(Seq::<Interface>::empty()) =~= Seq::<InterfaceView>::empty());
        }
        Scan {
            root_path,
            candidates,
            noop,
            position,
            step: Step::AssignType,
            attempts: 0,
            interfaces: Vec::new(),
        }
    }

    /// Whether the scan is over.
    pub fn is_finished(&self) -> (over: bool)
        ensures
            over == finished(self@),
    {
        self.position >= self.candidates.len()
    }

    /// What the scan waits for.
    pub fn step(&self) -> (step: Step)
        ensures
            step == self@.step,
    {
        self.step
    }

    /// Which candidate the scan looks at.
    pub fn position(&self) -> (position: usize)
        ensures
            position == self@.position,
    {
        self.position
    }

    /// How often the link of the candidate has been brought up.
    pub fn attempts(&self) -> (attempts: usize)
        ensures
            attempts == self@.attempts,
    {
        self.attempts
    }

    /// The path of the attribute file `attr` of the candidate.
    fn attribute_file(&self, attr: &str) -> (path: String)
        requires
            !finished(self@),
        ensures
            path@ == attribute_path(self@.root_path, self@.candidates[self@.position], attr@),
    {
        let dir = join_path(self.root_path.as_str(), self.candidates[self.position].as_str());
        join_path(dir.as_str(), attr)
    }

    /// What the caller does next.
    pub fn action(&self) -> (action: Action)
        ensures
            action@ == action_of(self@),
    {
        if self.is_finished() {
            return Action::Done;
        }
        match self.step {
            Step::AssignType => Action::Read(self.attribute_file("addr_assign_type")),
            Step::Carrier => Action::Read(self.attribute_file("carrier")),
            Step::BringUp => Action::BringUp(self.candidates[self.position].clone()),
            Step::Address => Action::Read(self.attribute_file("address")),
        }
    }

    /// Leaves the candidate behind.
    fn pass_on(&mut self)
        requires
            !finished(old(self)@),
        ensures
            final(self)@ == passed_on(old(self)@),
    {
        proof {
            use_type_invariant(&*self);
            lemma_next_candidate(self@.candidates, self@.position + 1);
        }
        let count = self.candidates.len();
        assert(self.position < count);
        let next = Scan::skip_loopbacks(&self.candidates, self.position + 1);
        self.attempts = 0;
        self.step = Step::AssignType;
        self.position = next;
    }

    /// Takes in what came of the last action: the content of the file that
    /// was read, `None` where it could not be read, and `None` after an
    /// attempt to bring a link up.
    pub fn advance(&mut self, outcome: Option<String>)
        ensures
            old(self).wf(),
            final(self).wf(),
            final(self)@ == advanced(old(self)@, opt_view(outcome)),
    {
        proof {
            use_type_invariant(&*self);
            lemma_advance(self@, opt_view(outcome));
        }
        if self.is_finished() {
            return;
        }
        match self.step {
            Step::AssignType => {
                if reads_permanent(&outcome) {
                    self.step = Step::Carrier;
                } else {
                    self.pass_on();
                }
            },
            Step::Carrier => {
                if reads_up(&outcome) {
                    self.step = Step::Address;
                } else if self.noop || self.attempts >= MAX_ATTEMPTS {
                    self.pass_on();
                } else {
                    self.step = Step::BringUp;
                }
            },
            Step::BringUp => {
                self.step = Step::Carrier;
                self.attempts = self.attempts + 1;
            },
            Step::Address => {
                match get_file_value(&outcome) {
                    Some(address) => {
                        let ghost before = self.interfaces@;
                        let iface = self.candidates[self.position].clone();
                        let mut interfaces: Vec<Interface> = Vec::new();
                        proof {
                            assert(interface_views(interfaces@) =~= Seq::<InterfaceView>::empty());
                        }
                        core::mem::swap(&mut self.interfaces, &mut interfaces);
                        interfaces.push(Interface { address, iface });
                        proof {
                            assert(interface_views(interfaces@) =~= interface_views(before).push(
                                InterfaceView {
                                    address: attribute(opt_view(outcome))->0,
                                    iface: old(self)@.candidates[old(self)@.position],
                                },
                            ));
                        }
                        core::mem::swap(&mut self.interfaces, &mut interfaces);
                        self.pass_on();
                    },
                    None => {
                        self.pass_on();
                    },
                }
            },
        }
    }

    /// The directory that the scan reads in.
    pub fn root_path(&self) -> (path: String)
        ensures
            path@ == self@.root_path,
    {
        self.root_path.clone()
    }

    /// The live interfaces that the scan has found. None of them is the
    /// loopback.
    pub fn into_interfaces(self) -> (interfaces: Vec<Interface>)
        ensures
            self.wf(),
            interface_views(interfaces@) == self@.interfaces,
            forall|i: int|
                0 <= i < interfaces@.len() ==> (#[trigger] interfaces@[i]).iface@ != loopback(),
    {
        proof {
            use_type_invariant(&self);
            assert forall|i: int| 0 <= i < self.interfaces@.len() implies (
            #[trigger] self.interfaces@[i]).iface@ != loopback() by {
                assert(self@.interfaces[i].iface != loopback());
                assert(self@.interfaces[i] == self.interfaces@[i]@);
            }
        }
        self.interfaces
    }
}

} // verus!
