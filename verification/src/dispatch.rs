//! Planning GATT writes: the command bytes, the choice of the control
//! characteristic on a connected device, and the sequential batch dispatcher
//! that gives every target exactly one attempt, in order, whatever happened
//! to the targets before it.

use crate::device::{device_views, DeviceInfo, DeviceView};
use crate::response::CommandResponse;
use vstd::prelude::*;

verus! {

/// The control byte that puts a lighthouse in standby.
pub const STANDBY_COMMAND: u8 = 0x00;

/// The control byte that powers a lighthouse on.
pub const POWERON_COMMAND: u8 = 0x01;

/// The well-known lighthouse control service UUID.
pub const LIGHTHOUSE_SERVICE_UUID: u128 = 0x00001523_1212_efde_1523_785feabcd124;

/// The well-known lighthouse control characteristic UUID.
pub const LIGHTHOUSE_CHAR_UUID: u128 = 0x00001525_1212_efde_1523_785feabcd124;

/// The two power commands a caller may request; never combined.
#[derive(Clone, Copy, Debug, PartialEq, Eq, Structural)]
pub enum Command {
    Standby,
    PowerOn,
}

/// The single byte written for a command.
pub open spec fn spec_command_byte(c: Command) -> u8 {
    match c {
        Command::Standby => STANDBY_COMMAND,
        Command::PowerOn => POWERON_COMMAND,
    }
}

impl Command {
    /// The single byte written for this command.
    pub fn byte(&self) -> (b: u8)
        ensures
            b == spec_command_byte(*self),
    {
        match self {
            Command::Standby => STANDBY_COMMAND,
            Command::PowerOn => POWERON_COMMAND,
        }
    }
}

/// Which command a run performs, from the two mutually exclusive flags:
/// both at once is tolerated, and power-on takes priority.
pub fn choose_command(poweron: bool, standby: bool) -> (r: Option<Command>)
    ensures
        r == if poweron {
            Some(Command::PowerOn)
        } else if standby {
            Some(Command::Standby)
        } else {
            None::<Command>
        },
{
    if poweron {
        Some(Command::PowerOn)
    } else if standby {
        Some(Command::Standby)
    } else {
        None
    }
}

/// What the library reads of one GATT characteristic: its UUID and whether
/// it supports the two write modes.
#[derive(Clone, Copy, Debug)]
pub struct GattCharacteristic {
    pub uuid: u128,
    pub write: bool,
    pub write_without_response: bool,
}

/// What the library reads of one GATT service: its UUID and its
/// characteristics, in discovery order.
#[derive(Debug)]
pub struct GattService {
    pub uuid: u128,
    pub characteristics: Vec<GattCharacteristic>,
}

/// A characteristic that can carry the command byte.
pub open spec fn spec_writable(c: GattCharacteristic) -> bool {
    c.write || c.write_without_response
}

/// Position `(i, j)` holds the exact lighthouse service/characteristic pair.
pub open spec fn spec_exact_at(services: Seq<GattService>, i: int, j: int) -> bool {
    &&& 0 <= i < services.len()
    &&& 0 <= j < services[i].characteristics@.len()
    &&& services[i].uuid == LIGHTHOUSE_SERVICE_UUID
    &&& services[i].characteristics@[j].uuid == LIGHTHOUSE_CHAR_UUID
}

/// Position `(i, j)` holds a writable characteristic.
pub open spec fn spec_writable_at(services: Seq<GattService>, i: int, j: int) -> bool {
    &&& 0 <= i < services.len()
    &&& 0 <= j < services[i].characteristics@.len()
    &&& spec_writable(services[i].characteristics@[j])
}

/// Some position holds the exact pair.
pub open spec fn spec_has_exact(services: Seq<GattService>) -> bool {
    exists|i: int, j: int| spec_exact_at(services, i, j)
}

/// Some position holds a writable characteristic.
pub open spec fn spec_has_writable(services: Seq<GattService>) -> bool {
    exists|i: int, j: int| spec_writable_at(services, i, j)
}

/// `(i, j)` comes no later than any writable position.
pub open spec fn spec_first_writable(services: Seq<GattService>, i: int, j: int) -> bool {
    forall|i2: int, j2: int| spec_writable_at(services, i2, j2) ==> (i2 > i || (i2 == i && j2
        >= j))
}

/// Choose where to write the command byte on a connected device: the exact
/// lighthouse service/characteristic pair when it exists, else the first
/// characteristic on any service that supports either write mode, else
/// nothing (the caller reports that no writable characteristic exists).
pub fn select_characteristic(services: &Vec<GattService>) -> (r: Option<(usize, usize)>)
    ensures
        match r {
            Some(p) => {
                let (i, j) = p;
                if spec_has_exact(services@) {
                    spec_exact_at(services@, i as int, j as int)
                } else {
                    spec_writable_at(services@, i as int, j as int) && spec_first_writable(
                        services@,
                        i as int,
                        j as int,
                    )
                }
            },
            None => !spec_has_exact(services@) && !spec_has_writable(services@),
        },
{
    // first pass: the exact pair
    let mut i: usize = 0;
    while i < services.len()
        invariant
            i <= services.len(),
            forall|i2: int, j2: int| i2 < i ==> !spec_exact_at(services@, i2, j2),
        decreases services.len() - i,
    {
        if services[i].uuid == LIGHTHOUSE_SERVICE_UUID {
            let chars = &services[i].characteristics;
            let mut j: usize = 0;
            while j < chars.len()
                invariant
                    j <= chars.len(),
                    chars == &services[i as int].characteristics,
                    i < services.len(),
                    services@[i as int].uuid == LIGHTHOUSE_SERVICE_UUID,
                    forall|i2: int, j2: int| i2 < i ==> !spec_exact_at(services@, i2, j2),
                    forall|j2: int| j2 < j ==> !spec_exact_at(services@, i as int, j2),
                decreases chars.len() - j,
            {
                if chars[j].uuid == LIGHTHOUSE_CHAR_UUID {
                    assert(spec_exact_at(services@, i as int, j as int));
                    return Some((i, j));
                }
                j += 1;
            }
        }
        i += 1;
    }
    assert(!spec_has_exact(services@)) by {
        if spec_has_exact(services@) {
            let (i2, j2) = choose|i2: int, j2: int| spec_exact_at(services@, i2, j2);
            assert(!spec_exact_at(services@, i2, j2));
        }
    }
    // second pass: the first writable characteristic anywhere
    let mut i: usize = 0;
    while i < services.len()
        invariant
            i <= services.len(),
            !spec_has_exact(services@),
            forall|i2: int, j2: int| i2 < i ==> !spec_writable_at(services@, i2, j2),
        decreases services.len() - i,
    {
        let chars = &services[i].characteristics;
        let mut j: usize = 0;
        while j < chars.len()
            invariant
                j <= chars.len(),
                chars == &services[i as int].characteristics,
                i < services.len(),
                !spec_has_exact(services@),
                forall|i2: int, j2: int| i2 < i ==> !spec_writable_at(services@, i2, j2),
                forall|j2: int| j2 < j ==> !spec_writable_at(services@, i as int, j2),
            decreases chars.len() - j,
        {
            if chars[j].write || chars[j].write_without_response {
                assert(spec_writable_at(services@, i as int, j as int));
                assert(spec_first_writable(services@, i as int, j as int)) by {
                    assert forall|i2: int, j2: int|
                        spec_writable_at(services@, i2, j2) implies (i2 > i || (i2 == i && j2
                        >= j)) by {
                        if i2 < i {
                            assert(!spec_writable_at(services@, i2, j2));
                        } else if i2 == i && j2 < j {
                            assert(!spec_writable_at(services@, i as int, j2));
                        }
                    }
                }
                return Some((i, j));
            }
            j += 1;
        }
        i += 1;
    }
    assert(!spec_has_writable(services@)) by {
        if spec_has_writable(services@) {
            let (i2, j2) = choose|i2: int, j2: int| spec_writable_at(services@, i2, j2);
            assert(!spec_writable_at(services@, i2, j2));
        }
    }
    None
}

/// The target a batch attempts next, given only how many results have been
/// recorded so far: outcomes play no part in it.
pub open spec fn spec_batch_target(targets: Seq<DeviceView>, recorded: Seq<bool>) -> Option<
    DeviceView,
> {
    if recorded.len() < targets.len() {
        Some(targets[recorded.len() as int])
    } else {
        None
    }
}

/// Batch dispatch isolation: which device is attempted next depends only on
/// how many attempts were made, never on whether they succeeded. A failure
/// in the middle of a batch cannot change which devices come after it, and
/// a completed batch has exactly one recorded attempt per target, in order.
pub proof fn lemma_batch_isolation(targets: Seq<DeviceView>, o1: Seq<bool>, o2: Seq<bool>)
    requires
        o1.len() == o2.len(),
    ensures
        spec_batch_target(targets, o1) == spec_batch_target(targets, o2),
{
}

/// Drives one command over a resolved device set, strictly in discovery
/// order, one device at a time: every target gets exactly one attempt, and
/// an attempt's failure is recorded and does not stop the batch.
pub struct BatchDispatcher {
    targets: Vec<DeviceInfo>,
    results: Vec<bool>,
}

impl BatchDispatcher {
    /// The devices this batch drives.
    pub closed spec fn targets_view(&self) -> Seq<DeviceView> {
        device_views(self.targets@)
    }

    /// The outcome of each attempt made so far, in order.
    pub closed spec fn results_view(&self) -> Seq<bool> {
        self.results@
    }

    /// One result per attempted target, never more than the targets.
    pub closed spec fn wf(&self) -> bool {
        self.results@.len() <= self.targets@.len()
    }

    /// A batch over the given targets, nothing attempted yet.
    pub fn new(targets: Vec<DeviceInfo>) -> (r: Self)
        ensures
            r.wf(),
            r.targets_view() == device_views(targets@),
            r.results_view() == Seq::<bool>::empty(),
    {
        let r = BatchDispatcher { targets, results: Vec::new() };
        assert(r.results@ =~= Seq::<bool>::empty());
        r
    }

    /// The next device to attempt, or `None` when every target has been
    /// attempted. The choice depends only on how many results are recorded.
    pub fn next_target(&self) -> (r: Option<DeviceInfo>)
        requires
            self.wf(),
        ensures
            match r {
                Some(d) => spec_batch_target(self.targets_view(), self.results_view()) == Some(
                    d@,
                ),
                None => spec_batch_target(self.targets_view(), self.results_view()) is None,
            },
    {
        if self.results.len() < self.targets.len() {
            Some(self.targets[self.results.len()].clone())
        } else {
            None
        }
    }

    /// Record the outcome of the one attempt at the current target.
    pub fn record(&mut self, ok: bool)
        requires
            old(self).wf(),
            old(self).results_view().len() < old(self).targets_view().len(),
        ensures
            final(self).wf(),
            final(self).targets_view() == old(self).targets_view(),
            final(self).results_view() == old(self).results_view().push(ok),
    {
        self.results.push(ok);
    }

    /// Whether every target has been attempted.
    pub fn finished(&self) -> (b: bool)
        ensures
            b == (self.results_view().len() == self.targets_view().len()),
    {
        self.results.len() == self.targets.len()
    }

    /// How many attempts were made.
    pub fn attempted(&self) -> (n: usize)
        ensures
            n == self.results_view().len(),
    {
        self.results.len()
    }

    /// The batch's report: always a success, carrying every attempted
    /// target; per-device failures are recorded, not raised.
    pub fn summary(self, message: &str) -> (r: CommandResponse)
        requires
            self.wf(),
            self.results_view().len() == self.targets_view().len(),
        ensures
            r@.success == true,
            r@.message == message@,
            r@.devices == self.targets_view(),
            r@.error_code == 0,
    {
        CommandResponse::success(message, self.targets)
    }
}

} // verus!
