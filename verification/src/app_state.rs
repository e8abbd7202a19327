//! The terminal frontend's state and its key-driven updates: the listed
//! devices, the selected row (wrapping at either end) and the status line.
//! The frontend only draws this state and performs the scans it asks for.

use crate::device::{DeviceInfo, DeviceView};
use vstd::prelude::*;

verus! {

/// What the terminal frontend shows.
pub struct AppState {
    pub devices: Vec<DeviceInfo>,
    pub selected: usize,
    pub status: String,
}

impl AppState {
    /// The selection always points at a listed device, or at the top of an
    /// empty list.
    pub open spec fn wf(&self) -> bool {
        if self.devices@.len() == 0 {
            self.selected == 0
        } else {
            (self.selected as int) < self.devices@.len()
        }
    }

    /// A fresh state: nothing listed yet, the hint to scan.
    pub fn new() -> (r: Self)
        ensures
            r.wf(),
            r.devices@.len() == 0,
            r.selected == 0,
            r.status@ == "Press 'r' to scan for devices"@,
    {
        AppState {
            devices: Vec::new(),
            selected: 0,
            status: "Press 'r' to scan for devices".to_owned(),
        }
    }

    /// Move the selection up one row, wrapping to the bottom at the top.
    pub fn select_prev(&mut self)
        requires
            old(self).wf(),
        ensures
            final(self).wf(),
            final(self).devices@ == old(self).devices@,
            final(self).status@ == old(self).status@,
            old(self).devices@.len() == 0 ==> final(self).selected == 0,
            old(self).devices@.len() > 0 ==> final(self).selected as int == (
            if old(self).selected == 0 {
                old(self).devices@.len() - 1
            } else {
                old(self).selected - 1
            }),
    {
        if self.devices.len() > 0 {
            if self.selected == 0 {
                self.selected = self.devices.len() - 1;
            } else {
                self.selected = self.selected - 1;
            }
        }
    }

    /// Move the selection down one row, wrapping to the top at the bottom.
    pub fn select_next(&mut self)
        requires
            old(self).wf(),
        ensures
            final(self).wf(),
            final(self).devices@ == old(self).devices@,
            final(self).status@ == old(self).status@,
            old(self).devices@.len() == 0 ==> final(self).selected == 0,
            old(self).devices@.len() > 0 ==> final(self).selected as int == (
            if old(self).selected + 1 == old(self).devices@.len() {
                0int
            } else {
                old(self).selected + 1
            }),
    {
        if self.devices.len() > 0 {
            if self.selected + 1 == self.devices.len() {
                self.selected = 0;
            } else {
                self.selected = self.selected + 1;
            }
        }
    }

    /// Show a new device list, with the selection back at the top.
    pub fn set_devices(&mut self, devices: Vec<DeviceInfo>, status: &str)
        ensures
            final(self).wf(),
            final(self).devices@ == devices@,
            final(self).selected == 0,
            final(self).status@ == status@,
    {
        self.devices = devices;
        self.selected = 0;
        self.status = status.to_owned();
    }

    /// Replace the status line alone.
    pub fn set_status(&mut self, status: &str)
        requires
            old(self).wf(),
        ensures
            final(self).wf(),
            final(self).devices@ == old(self).devices@,
            final(self).selected == old(self).selected,
            final(self).status@ == status@,
    {
        self.status = status.to_owned();
    }
}

} // verus!
