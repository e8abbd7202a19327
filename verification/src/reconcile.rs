//! The reconciliation engine: the state machine that turns a requested
//! command and the cached device list into scans, cache writes and command
//! dispatches. The cache is a hint, never ground truth: every dispatch path
//! reconfirms device presence against a live scan before writing, so
//! commands only ever reach devices that are both previously known and
//! currently visible — except on a fresh-scan path, where classification
//! (not the cache) is the trust source.
//!
//! The engine makes decisions only. The caller performs each returned
//! action (read the cache, scan, save, dispatch, prompt) and feeds the
//! outcome back as the next event; a final action reports the result.

use crate::classify::{
    ad_views, classify_scan, spec_classified, spec_classified_raw, Advertisement,
    AdvertisementView,
};
use crate::device::{device_views, lemma_dedup_unique, unique_addresses, DeviceInfo, DeviceView};
use crate::dispatch::Command;
use crate::response::{
    spec_error_response, spec_success_response, CommandResponse, ResponseView, EXIT_BLUETOOTH_ERROR,
    EXIT_COMMAND_FAILED, EXIT_NO_DEVICES_FOUND,
};
use vstd::prelude::*;

verus! {

/// How the operator interacts with the run: interactively (the engine may
/// ask whether to rescan) or automated/structured (no prompt, no implicit
/// rescan).
#[derive(Clone, Copy, Debug, PartialEq, Eq, Structural)]
pub enum Mode {
    Interactive,
    Automated,
}

/// Whether some advertisement in `ads` carries address `a`.
pub open spec fn ad_has_address(ads: Seq<AdvertisementView>, a: Seq<char>) -> bool {
    exists|i: int| 0 <= i < ads.len() && ads[i].address == a
}

/// The reconciliation set: the cached records whose address is visible in
/// the live scan, in cache order.
pub open spec fn spec_targets(cache: Seq<DeviceView>, ads: Seq<AdvertisementView>) -> Seq<
    DeviceView,
> {
    cache.filter(|d: DeviceView| ad_has_address(ads, d.address))
}

/// One step of reconciliation: how the target set grows with the cache.
proof fn lemma_targets_step(cache: Seq<DeviceView>, ads: Seq<AdvertisementView>)
    requires
        cache.len() > 0,
    ensures
        spec_targets(cache, ads) == if ad_has_address(ads, cache.last().address) {
            spec_targets(cache.drop_last(), ads).push(cache.last())
        } else {
            spec_targets(cache.drop_last(), ads)
        },
{
    reveal(Seq::<_>::filter);
}

/// Whether some advertisement carries the given address.
fn ads_contain_address(ads: &Vec<Advertisement>, addr: &String) -> (b: bool)
    ensures
        b == ad_has_address(ad_views(ads@), addr@),
{
    let mut i: usize = 0;
    while i < ads.len()
        invariant
            i <= ads.len(),
            forall|k: int| 0 <= k < i ==> ad_views(ads@)[k].address != addr@,
        decreases ads.len() - i,
    {
        if ads[i].address == *addr {
            assert(ad_views(ads@)[i as int].address == addr@);
            return true;
        }
        i += 1;
    }
    assert(!ad_has_address(ad_views(ads@), addr@)) by {
        if ad_has_address(ad_views(ads@), addr@) {
            let j = choose|j: int|
                0 <= j < ad_views(ads@).len() && ad_views(ads@)[j].address == addr@;
            assert(ad_views(ads@)[j].address != addr@);
        }
    }
    false
}

/// Intersect the cache with a live scan by address: the devices a command
/// may be dispatched to. Cached devices not currently visible are skipped.
pub fn reconcile_targets(cache: &Vec<DeviceInfo>, ads: &Vec<Advertisement>) -> (r: Vec<DeviceInfo>)
    ensures
        device_views(r@) == spec_targets(device_views(cache@), ad_views(ads@)),
{
    let ghost all = device_views(cache@);
    let ghost adsv = ad_views(ads@);
    let mut out: Vec<DeviceInfo> = Vec::new();
    let mut i: usize = 0;
    while i < cache.len()
        invariant
            i <= cache.len(),
            all == device_views(cache@),
            adsv == ad_views(ads@),
            all.len() == cache.len(),
            device_views(out@) == spec_targets(all.take(i as int), adsv),
        decreases cache.len() - i,
    {
        proof {
            assert(all.take(i as int + 1).drop_last() =~= all.take(i as int));
            assert(all.take(i as int + 1).last() == all[i as int]);
            lemma_targets_step(all.take(i as int + 1), adsv);
        }
        if ads_contain_address(ads, &cache[i].address) {
            out.push(cache[i].clone());
            assert(device_views(out@) =~= spec_targets(all.take(i as int + 1), adsv));
        } else {
            assert(device_views(out@) =~= spec_targets(all.take(i as int + 1), adsv));
        }
        i += 1;
    }
    proof {
        assert(all.take(all.len() as int) =~= all);
    }
    out
}

/// What the caller tells the engine happened.
pub enum Event {
    /// The cache was read; a read failure degrades to the empty list.
    CacheLoaded(Vec<DeviceInfo>),
    /// A scan finished and saw these peripherals.
    ScanCompleted(Vec<Advertisement>),
    /// No adapter was available or the scan could not run.
    ScanFailed,
    /// The cache write finished (a failure is logged, never fatal).
    SaveFinished(bool),
    /// The operator answered the rescan prompt.
    PromptAnswered(bool),
    /// The batch dispatch ran to completion.
    DispatchFinished,
    /// The batch dispatch could not run at all.
    DispatchFailed,
}

/// Model of an `Event`.
pub ghost enum EventView {
    CacheLoaded(Seq<DeviceView>),
    ScanCompleted(Seq<AdvertisementView>),
    ScanFailed,
    SaveFinished(bool),
    PromptAnswered(bool),
    DispatchFinished,
    DispatchFailed,
}

impl View for Event {
    type V = EventView;

    open spec fn view(&self) -> EventView {
        match self {
            Event::CacheLoaded(c) => EventView::CacheLoaded(device_views(c@)),
            Event::ScanCompleted(a) => EventView::ScanCompleted(ad_views(a@)),
            Event::ScanFailed => EventView::ScanFailed,
            Event::SaveFinished(ok) => EventView::SaveFinished(*ok),
            Event::PromptAnswered(yes) => EventView::PromptAnswered(*yes),
            Event::DispatchFinished => EventView::DispatchFinished,
            Event::DispatchFailed => EventView::DispatchFailed,
        }
    }
}

/// What the engine asks the caller to do next.
pub enum Action {
    /// Read the cache file and answer with `CacheLoaded`.
    ReadCache,
    /// Run a scan and answer with `ScanCompleted` or `ScanFailed`.
    Scan,
    /// Persist this device list and answer with `SaveFinished`.
    SaveCache(Vec<DeviceInfo>),
    /// Send the command to each device in order and answer with
    /// `DispatchFinished` or `DispatchFailed`.
    Dispatch(Vec<DeviceInfo>, Command),
    /// Ask the operator whether to rescan; answer with `PromptAnswered`.
    Prompt,
    /// The run is over; hand this result to the caller.
    Report(CommandResponse),
    /// The event did not belong to the current state; nothing to do.
    Idle,
}

/// Model of an `Action`.
pub ghost enum ActionView {
    ReadCache,
    Scan,
    SaveCache(Seq<DeviceView>),
    Dispatch(Seq<DeviceView>, Command),
    Prompt,
    Report(ResponseView),
    Idle,
}

impl View for Action {
    type V = ActionView;

    open spec fn view(&self) -> ActionView {
        match self {
            Action::ReadCache => ActionView::ReadCache,
            Action::Scan => ActionView::Scan,
            Action::SaveCache(d) => ActionView::SaveCache(device_views(d@)),
            Action::Dispatch(d, c) => ActionView::Dispatch(device_views(d@), *c),
            Action::Prompt => ActionView::Prompt,
            Action::Report(r) => ActionView::Report(r@),
            Action::Idle => ActionView::Idle,
        }
    }
}

/// Where the engine stands.
enum EngineState {
    LoadingCache,
    FreshScanning,
    Saving(Vec<DeviceInfo>),
    LiveScanning(Vec<DeviceInfo>),
    Prompting,
    Dispatching(Vec<DeviceInfo>),
    Done,
}

/// Model of the engine's state.
pub ghost enum StateView {
    LoadingCache,
    FreshScanning,
    Saving(Seq<DeviceView>),
    LiveScanning(Seq<DeviceView>),
    Prompting,
    Dispatching(Seq<DeviceView>),
    Done,
}

/// Model of the engine: its state, the requested command (`None` on the
/// listing and scan-only paths) and the interaction mode.
#[verifier::ext_equal]
pub ghost struct EngineView {
    pub state: StateView,
    pub command: Option<Command>,
    pub mode: Mode,
}

/// The engine's whole transition relation, one event at a time.
pub open spec fn spec_step(pre: EngineView, ev: EventView) -> (EngineView, ActionView) {
    match (pre.state, ev) {
        (StateView::LoadingCache, EventView::CacheLoaded(cache)) => {
            if cache.len() == 0 {
                // nothing cached: fall back to a fresh classified scan
                (EngineView { state: StateView::FreshScanning, ..pre }, ActionView::Scan)
            } else if pre.command is Some {
                // reconfirm the cached devices against the air
                (EngineView { state: StateView::LiveScanning(cache), ..pre }, ActionView::Scan)
            } else {
                // listing only: report the cache as it stands
                (
                    EngineView { state: StateView::Done, ..pre },
                    ActionView::Report(
                        spec_success_response("Retrieved known devices"@, cache),
                    ),
                )
            }
        },
        (StateView::FreshScanning, EventView::ScanCompleted(ads)) => {
            let found = spec_classified(ads);
            if found.len() == 0 {
                if pre.command is Some {
                    // a command had nothing to go to: an error on dispatch paths
                    (
                        EngineView { state: StateView::Done, ..pre },
                        ActionView::Report(
                            spec_error_response(
                                "No devices found"@,
                                EXIT_NO_DEVICES_FOUND as int,
                            ),
                        ),
                    )
                } else {
                    // an empty scan is a normal outcome on scan/list paths
                    (
                        EngineView { state: StateView::Done, ..pre },
                        ActionView::Report(
                            spec_success_response("No devices found"@, Seq::empty()),
                        ),
                    )
                }
            } else {
                (EngineView { state: StateView::Saving(found), ..pre }, ActionView::SaveCache(found))
            }
        },
        (StateView::FreshScanning, EventView::ScanFailed) => (
            EngineView { state: StateView::Done, ..pre },
            ActionView::Report(
                spec_error_response("Bluetooth scan failed"@, EXIT_BLUETOOTH_ERROR as int),
            ),
        ),
        (StateView::Saving(found), EventView::SaveFinished(_)) => {
            // a save failure was logged by the caller and is non-fatal
            match pre.command {
                Some(c) => (
                    EngineView { state: StateView::Dispatching(found), ..pre },
                    ActionView::Dispatch(found, c),
                ),
                None => (
                    EngineView { state: StateView::Done, ..pre },
                    ActionView::Report(
                        spec_success_response("Scan completed and devices saved"@, found),
                    ),
                ),
            }
        },
        (StateView::LiveScanning(cache), EventView::ScanCompleted(ads)) => {
            let targets = spec_targets(cache, ads);
            if targets.len() > 0 {
                match pre.command {
                    Some(c) => (
                        EngineView { state: StateView::Dispatching(targets), ..pre },
                        ActionView::Dispatch(targets, c),
                    ),
                    None => (
                        EngineView { state: StateView::Done, ..pre },
                        ActionView::Report(
                            spec_success_response("Retrieved known devices"@, targets),
                        ),
                    ),
                }
            } else if pre.mode == Mode::Automated {
                // no prompt, no implicit rescan: terminate at once
                (
                    EngineView { state: StateView::Done, ..pre },
                    ActionView::Report(
                        spec_error_response("No devices found"@, EXIT_NO_DEVICES_FOUND as int),
                    ),
                )
            } else {
                (EngineView { state: StateView::Prompting, ..pre }, ActionView::Prompt)
            }
        },
        (StateView::LiveScanning(_), EventView::ScanFailed) => (
            EngineView { state: StateView::Done, ..pre },
            ActionView::Report(
                spec_error_response("Bluetooth scan failed"@, EXIT_BLUETOOTH_ERROR as int),
            ),
        ),
        (StateView::Prompting, EventView::PromptAnswered(yes)) => {
            if yes {
                (EngineView { state: StateView::FreshScanning, ..pre }, ActionView::Scan)
            } else {
                (
                    EngineView { state: StateView::Done, ..pre },
                    ActionView::Report(
                        spec_error_response("No devices found"@, EXIT_NO_DEVICES_FOUND as int),
                    ),
                )
            }
        },
        (StateView::Dispatching(targets), EventView::DispatchFinished) => (
            EngineView { state: StateView::Done, ..pre },
            ActionView::Report(
                spec_success_response("Command sent to devices"@, targets),
            ),
        ),
        (StateView::Dispatching(_), EventView::DispatchFailed) => (
            EngineView { state: StateView::Done, ..pre },
            ActionView::Report(
                spec_error_response(
                    "Failed to send command to devices"@,
                    EXIT_COMMAND_FAILED as int,
                ),
            ),
        ),
        _ => (pre, ActionView::Idle),
    }
}

/// The reconciliation engine. Drive it by performing each returned action
/// and feeding the outcome back through `step`.
pub struct Engine {
    state: EngineState,
    command: Option<Command>,
    mode: Mode,
}

impl View for Engine {
    type V = EngineView;

    closed spec fn view(&self) -> EngineView {
        EngineView {
            state: match &self.state {
                EngineState::LoadingCache => StateView::LoadingCache,
                EngineState::FreshScanning => StateView::FreshScanning,
                EngineState::Saving(d) => StateView::Saving(device_views(d@)),
                EngineState::LiveScanning(d) => StateView::LiveScanning(device_views(d@)),
                EngineState::Prompting => StateView::Prompting,
                EngineState::Dispatching(d) => StateView::Dispatching(device_views(d@)),
                EngineState::Done => StateView::Done,
            },
            command: self.command,
            mode: self.mode,
        }
    }
}

impl Engine {
    /// Start a command dispatch run: first read the cache.
    pub fn new_dispatch(command: Command, mode: Mode) -> (r: (Engine, Action))
        ensures
            r.0@ == (EngineView {
                state: StateView::LoadingCache,
                command: Some(command),
                mode,
            }),
            r.1@ == ActionView::ReadCache,
    {
        (Engine { state: EngineState::LoadingCache, command: Some(command), mode },
        Action::ReadCache)
    }

    /// Start a scan-and-cache run: scan at once, whatever the cache holds.
    pub fn new_scan(mode: Mode) -> (r: (Engine, Action))
        ensures
            r.0@ == (EngineView { state: StateView::FreshScanning, command: None, mode }),
            r.1@ == ActionView::Scan,
    {
        (Engine { state: EngineState::FreshScanning, command: None, mode }, Action::Scan)
    }

    /// Start a dispatch run that trusts a fresh classified scan instead of
    /// the cache: scan, save what classifies, dispatch to it. This is the
    /// path behind the runtime start/stop events.
    pub fn new_fresh_dispatch(command: Command, mode: Mode) -> (r: (Engine, Action))
        ensures
            r.0@ == (EngineView {
                state: StateView::FreshScanning,
                command: Some(command),
                mode,
            }),
            r.1@ == ActionView::Scan,
    {
        (Engine { state: EngineState::FreshScanning, command: Some(command), mode }, Action::Scan)
    }

    /// Start a device-listing run: read the cache, scan only when it is
    /// empty.
    pub fn new_devices(mode: Mode) -> (r: (Engine, Action))
        ensures
            r.0@ == (EngineView { state: StateView::LoadingCache, command: None, mode }),
            r.1@ == ActionView::ReadCache,
    {
        (Engine { state: EngineState::LoadingCache, command: None, mode }, Action::ReadCache)
    }

    /// Feed one event in; the result is the engine as it stands afterwards
    /// and the next action to perform.
    pub fn step(self, ev: Event) -> (r: (Engine, Action))
        ensures
            (r.0@, r.1@) == spec_step(self@, ev@),
    {
        let Engine { state, command, mode } = self;
        match (state, ev) {
            (EngineState::LoadingCache, Event::CacheLoaded(cache)) => {
                if cache.len() == 0 {
                    (Engine { state: EngineState::FreshScanning, command, mode }, Action::Scan)
                } else if command.is_some() {
                    (Engine { state: EngineState::LiveScanning(cache), command, mode },
                    Action::Scan)
                } else {
                    (
                        Engine { state: EngineState::Done, command, mode },
                        Action::Report(
                            CommandResponse::success("Retrieved known devices", cache),
                        ),
                    )
                }
            },
            (EngineState::FreshScanning, Event::ScanCompleted(ads)) => {
                let found = classify_scan(&ads);
                if found.len() == 0 {
                    if command.is_some() {
                        (
                            Engine { state: EngineState::Done, command, mode },
                            Action::Report(
                                CommandResponse::error("No devices found", EXIT_NO_DEVICES_FOUND),
                            ),
                        )
                    } else {
                        let r = CommandResponse::success("No devices found", found);
                        assert(r@.devices =~= Seq::<DeviceView>::empty());
                        (Engine { state: EngineState::Done, command, mode }, Action::Report(r))
                    }
                } else {
                    let copy = crate::device::clone_devices(&found);
                    (
                        Engine { state: EngineState::Saving(found), command, mode },
                        Action::SaveCache(copy),
                    )
                }
            },
            (EngineState::FreshScanning, Event::ScanFailed) => (
                Engine { state: EngineState::Done, command, mode },
                Action::Report(
                    CommandResponse::error("Bluetooth scan failed", EXIT_BLUETOOTH_ERROR),
                ),
            ),
            (EngineState::Saving(found), Event::SaveFinished(_ok)) => {
                match command {
                    Some(c) => {
                        let copy = crate::device::clone_devices(&found);
                        (
                            Engine { state: EngineState::Dispatching(found), command, mode },
                            Action::Dispatch(copy, c),
                        )
                    },
                    None => (
                        Engine { state: EngineState::Done, command: None, mode },
                        Action::Report(
                            CommandResponse::success("Scan completed and devices saved", found),
                        ),
                    ),
                }
            },
            (EngineState::LiveScanning(cache), Event::ScanCompleted(ads)) => {
                let targets = reconcile_targets(&cache, &ads);
                if targets.len() > 0 {
                    match command {
                        Some(c) => {
                            let copy = crate::device::clone_devices(&targets);
                            (
                                Engine {
                                    state: EngineState::Dispatching(targets),
                                    command,
                                    mode,
                                },
                                Action::Dispatch(copy, c),
                            )
                        },
                        None => (
                            Engine { state: EngineState::Done, command: None, mode },
                            Action::Report(
                                CommandResponse::success("Retrieved known devices", targets),
                            ),
                        ),
                    }
                } else if mode == Mode::Automated {
                    (
                        Engine { state: EngineState::Done, command, mode },
                        Action::Report(
                            CommandResponse::error("No devices found", EXIT_NO_DEVICES_FOUND),
                        ),
                    )
                } else {
                    (Engine { state: EngineState::Prompting, command, mode }, Action::Prompt)
                }
            },
            (EngineState::LiveScanning(_), Event::ScanFailed) => (
                Engine { state: EngineState::Done, command, mode },
                Action::Report(
                    CommandResponse::error("Bluetooth scan failed", EXIT_BLUETOOTH_ERROR),
                ),
            ),
            (EngineState::Prompting, Event::PromptAnswered(yes)) => {
                if yes {
                    (Engine { state: EngineState::FreshScanning, command, mode }, Action::Scan)
                } else {
                    (
                        Engine { state: EngineState::Done, command, mode },
                        Action::Report(
                            CommandResponse::error("No devices found", EXIT_NO_DEVICES_FOUND),
                        ),
                    )
                }
            },
            (EngineState::Dispatching(targets), Event::DispatchFinished) => (
                Engine { state: EngineState::Done, command, mode },
                Action::Report(
                    CommandResponse::success("Command sent to devices", targets),
                ),
            ),
            (EngineState::Dispatching(_), Event::DispatchFailed) => (
                Engine { state: EngineState::Done, command, mode },
                Action::Report(
                    CommandResponse::error(
                        "Failed to send command to devices",
                        EXIT_COMMAND_FAILED,
                    ),
                ),
            ),
            (st, _) => (Engine { state: st, command, mode }, Action::Idle),
        }
    }
}

/// The reconciliation law: on a live scan over cache `C` seeing
/// advertisements `S`, the dispatch target is exactly the set of cached
/// records whose address is visible in `S`; and if that set is empty in
/// automated mode, the run terminates with the no-devices error and no
/// dispatch action is issued.
pub proof fn lemma_reconciliation(
    pre: EngineView,
    cache: Seq<DeviceView>,
    ads: Seq<AdvertisementView>,
)
    requires
        pre.state == StateView::LiveScanning(cache),
        pre.command is Some,
    ensures
        ({
            let (post, act) = spec_step(pre, EventView::ScanCompleted(ads));
            &&& spec_targets(cache, ads).len() > 0 ==> act == ActionView::Dispatch(
                spec_targets(cache, ads),
                pre.command->0,
            )
            &&& (spec_targets(cache, ads).len() == 0 && pre.mode == Mode::Automated) ==> {
                &&& post.state == StateView::Done
                &&& act == ActionView::Report(
                    spec_error_response("No devices found"@, EXIT_NO_DEVICES_FOUND as int),
                )
            }
        }),
{
}

/// The cache-write invariant: whatever list the engine asks to persist is
/// deduplicated by address, so the cache never holds two records with the
/// same address.
pub proof fn lemma_saved_lists_unique(pre: EngineView, ev: EventView)
    ensures
        ({
            let (post, act) = spec_step(pre, ev);
            act matches ActionView::SaveCache(l) ==> unique_addresses(l)
        }),
{
    match (pre.state, ev) {
        (StateView::FreshScanning, EventView::ScanCompleted(ads)) => {
            lemma_dedup_unique(spec_classified_raw(ads));
        },
        _ => {},
    }
}

} // verus!
