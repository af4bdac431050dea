//! The walk over the PCI buses, one probe at a time. The walk names the
//! place to probe; whoever reads the configuration space answers with what
//! is found there, and the walk decides where to look next.
//!
//! A bus is walked device by device. Of a device, function 0 is probed
//! first, and the other functions only if function 0 says that there are
//! several. The bus behind a bridge is walked before the bridge is recorded.
use vstd::prelude::*;
use crate::device::pci::device::{PCIDevice, PCIDeviceView};
use crate::device::pci::{PCIController, DEVICES_PER_BUS, FUNCTIONS_PER_DEVICE};

verus! {

/// A place on the buses: a function of a device on a bus.
#[derive(Debug, Clone, Copy, PartialEq, Eq, Structural)]
pub struct PCIPlace {
    pub bus: u8,
    pub device: u8,
    pub func: u8,
}

/// What the walk asks for after a probe.
#[derive(Debug, Clone, Copy, PartialEq, Eq, Structural)]
pub struct WalkStep {
    /// The number to write as secondary bus number to the function that was
    /// just probed, if it is a bridge whose bus had none.
    pub assigned: Option<u8>,
    /// The place to probe next; `None` when the walk is over.
    pub next: Option<PCIPlace>,
}

/// A bus whose walk is under way: the place on it that was probed last, and
/// the bridge found there while the bus behind that bridge is walked.
pub struct WalkLevel {
    place: PCIPlace,
    bridge: Option<PCIDevice>,
}

/// A bus whose walk is under way, as the contracts see it.
pub struct WalkLevelView {
    pub place: PCIPlace,
    pub bridge: Option<PCIDeviceView>,
}

impl View for WalkLevel {
    type V = WalkLevelView;

    closed spec fn view(&self) -> WalkLevelView {
        WalkLevelView {
            place: self.place,
            bridge: match self.bridge {
                Some(bridge) => Some(bridge@),
                None => None,
            },
        }
    }
}

/// The state of a walk as the contracts see it, with what the controller
/// holds of it.
pub struct WalkView {
    /// The buses whose walk is under way, the one walked now last.
    pub levels: Seq<WalkLevelView>,
    /// The functions recorded so far.
    pub devices: Seq<PCIDeviceView>,
    /// The highest bus number in use.
    pub max_bus: u8,
}

/// The level of a bus on which `place` was probed last.
pub open spec fn level_at(place: PCIPlace) -> WalkLevelView {
    WalkLevelView { place, bridge: None }
}

/// Where the walk goes once the function probed last on the bus walked now
/// is dealt with; `multi` tells whether its header says that the device has
/// several functions. The next function of the device comes next, if
/// function 0 said that there are several; else function 0 of the next
/// device; and after the last device the bus is done: the bridge that led
/// to it is recorded, and the walk goes on behind that bridge on the bus
/// before. With the first bus the walk is over.
pub open spec fn move_on(walk: WalkView, multi: bool) -> (WalkView, Option<PCIPlace>)
    decreases walk.levels.len(),
{
    if walk.levels.len() == 0 {
        (walk, None)
    } else {
        let place = walk.levels.last().place;
        if (place.func == 0 && multi) || (0 < place.func && place.func + 1
            < FUNCTIONS_PER_DEVICE) {
            let next = PCIPlace { func: (place.func + 1) as u8, ..place };
            (WalkView { levels: walk.levels.drop_last().push(level_at(next)), ..walk }, Some(next))
        } else if place.device + 1 < DEVICES_PER_BUS {
            let next = PCIPlace { bus: place.bus, device: (place.device + 1) as u8, func: 0 };
            (WalkView { levels: walk.levels.drop_last().push(level_at(next)), ..walk }, Some(next))
        } else {
            let rest = walk.levels.drop_last();
            if rest.len() == 0 {
                (WalkView { levels: rest, ..walk }, None)
            } else {
                match rest.last().bridge {
                    Some(bridge) => move_on(
                        WalkView { levels: rest, devices: walk.devices.push(bridge), ..walk },
                        bridge.header_type.multi_function(),
                    ),
                    None => move_on(WalkView { levels: rest, ..walk }, false),
                }
            }
        }
    }
}

/// What a step of the walk comes to, given what the probe of the place asked
/// for last has found. An empty slot is passed by. A function that is no
/// bridge is recorded. A bridge whose bus has no number gets the number after
/// the highest one in use. The bus behind a bridge is walked next, from its
/// first place, and the bridge recorded afterwards; a bridge to its own bus
/// is recorded at once.
pub open spec fn step_outcome(walk: WalkView, found: Option<PCIDeviceView>) -> (WalkView, WalkStep) {
    match found {
        None => {
            let moved = move_on(walk, false);
            (moved.0, WalkStep { assigned: None, next: moved.1 })
        },
        Some(function) => {
            let multi = function.header_type.multi_function();
            if !function.is_bridge() {
                let moved = move_on(
                    WalkView { devices: walk.devices.push(function), ..walk },
                    multi,
                );
                (moved.0, WalkStep { assigned: None, next: moved.1 })
            } else {
                let fresh = function.secondary_bus == 0;
                let number = if fresh {
                    (walk.max_bus + 1) as u8
                } else {
                    function.secondary_bus
                };
                let assigned = if fresh {
                    Some(number)
                } else {
                    None
                };
                let highest = if fresh {
                    number
                } else {
                    walk.max_bus
                };
                let bridge = PCIDeviceView { secondary_bus: number, ..function };
                let place = walk.levels.last().place;
                if number != place.bus {
                    let first = PCIPlace { bus: number, device: 0, func: 0 };
                    (
                        WalkView {
                            levels: walk.levels.drop_last().push(
                                WalkLevelView { place, bridge: Some(bridge) },
                            ).push(level_at(first)),
                            devices: walk.devices,
                            max_bus: if number > highest {
                                number
                            } else {
                                highest
                            },
                        },
                        WalkStep { assigned, next: Some(first) },
                    )
                } else {
                    let moved = move_on(
                        WalkView { devices: walk.devices.push(bridge), max_bus: highest, ..walk },
                        multi,
                    );
                    (moved.0, WalkStep { assigned, next: moved.1 })
                }
            }
        },
    }
}

/// Whether every place of `levels` is a place: a device below
/// `DEVICES_PER_BUS`, a function below `FUNCTIONS_PER_DEVICE`.
pub open spec fn places_in_range(levels: Seq<WalkLevelView>) -> bool {
    forall|at: int|
        0 <= at < levels.len() ==> (#[trigger] levels[at]).place.device < DEVICES_PER_BUS
            && levels[at].place.func < FUNCTIONS_PER_DEVICE
}

/// The place that `move_on` names is a place, and the places of the walk
/// stay places.
pub proof fn lemma_move_on_in_range(walk: WalkView, multi: bool)
    requires
        places_in_range(walk.levels),
    ensures
        places_in_range(move_on(walk, multi).0.levels),
        match move_on(walk, multi).1 {
            Some(next) => {
                &&& next.device < DEVICES_PER_BUS
                &&& next.func < FUNCTIONS_PER_DEVICE
                &&& move_on(walk, multi).0.levels.len() > 0
                &&& move_on(walk, multi).0.levels.last().place == next
            },
            None => move_on(walk, multi).0.levels.len() == 0,
        },
    decreases walk.levels.len(),
{
    if walk.levels.len() > 0 {
        let place = walk.levels.last().place;
        let rest = walk.levels.drop_last();
        assert forall|at: int| 0 <= at < rest.len() implies (#[trigger] rest[at]).place.device
            < DEVICES_PER_BUS && rest[at].place.func < FUNCTIONS_PER_DEVICE by {
            assert(rest[at] == walk.levels[at]);
        }
        if (place.func == 0 && multi) || (0 < place.func && place.func + 1
            < FUNCTIONS_PER_DEVICE) {
        } else if place.device + 1 < DEVICES_PER_BUS {
        } else if rest.len() > 0 {
            match rest.last().bridge {
                Some(bridge) => lemma_move_on_in_range(
                    WalkView { levels: rest, devices: walk.devices.push(bridge), ..walk },
                    bridge.header_type.multi_function(),
                ),
                None => lemma_move_on_in_range(WalkView { levels: rest, ..walk }, false),
            }
        }
    }
}

/// A walk over the buses.
pub struct PCIWalk {
    levels: Vec<WalkLevel>,
}

impl PCIWalk {
    /// The buses whose walk is under way, the one walked now last.
    pub closed spec fn levels(&self) -> Seq<WalkLevelView> {
        self.levels@.map_values(|level: WalkLevel| level@)
    }

    /// The walk as the contracts see it, with what `controller` holds of it.
    pub open spec fn view_with(&self, controller: &PCIController) -> WalkView {
        WalkView {
            levels: self.levels(),
            devices: controller.devices()->0,
            max_bus: controller.max_bus(),
        }
    }

    /// The invariant of a walk: its places are places.
    pub open spec fn wf(&self) -> bool {
        places_in_range(self.levels())
    }

    /// Whether the walk is over.
    pub fn is_over(&self) -> (over: bool)
        ensures
            over == (self.levels().len() == 0),
    {
        self.levels.len() == 0
    }

    /// Starts a walk: the controller forgets what an earlier scan found, and
    /// the first place to probe is function 0 of device 0 on bus 0.
    pub fn start(controller: &mut PCIController) -> (started: (PCIWalk, PCIPlace))
        ensures
            started.1 == (PCIPlace { bus: 0, device: 0, func: 0 }),
            started.0.levels() == seq![level_at(started.1)],
            started.0.wf(),
            final(controller).devices() == Some(Seq::<PCIDeviceView>::empty()),
            final(controller).max_bus() == 0,
    {
        controller.scan_pci_bus();
        controller.enumerate_bus(0);
        let first = PCIPlace { bus: 0, device: 0, func: 0 };
        let mut levels: Vec<WalkLevel> = Vec::new();
        levels.push(WalkLevel { place: first, bridge: None });
        let walk = PCIWalk { levels };
        assert(walk.levels() =~= seq![level_at(first)]);
        (walk, first)
    }

    /// Takes the walk on from the function that was dealt with last.
    fn move_on(&mut self, controller: &mut PCIController, multi: bool) -> (next: Option<PCIPlace>)
        requires
            old(self).wf(),
            old(controller).devices() is Some,
        ensures
            final(self).wf(),
            final(controller).devices() is Some,
            (final(self).view_with(final(controller)), next) == move_on(
                old(self).view_with(old(controller)),
                multi,
            ),
    {
        let ghost goal = move_on(self.view_with(controller), multi);
        let mut multi = multi;
        let mut next: Option<PCIPlace> = None;
        loop
            invariant_except_break
                move_on(self.view_with(controller), multi) == goal,
            invariant
                self.wf(),
                controller.devices() is Some,
            ensures
                self.wf(),
                controller.devices() is Some,
                (self.view_with(controller), next) == goal,
            decreases self.levels.len(),
        {
            let ghost before = self.view_with(controller);
            match self.levels.pop() {
                None => {
                    proof {
                        assert(self.levels() =~= before.levels);
                    }
                    next = None;
                    break ;
                },
                Some(level) => {
                    let ghost rest = self.levels();
                    proof {
                        assert(rest =~= before.levels.drop_last());
                        assert(level@ == before.levels.last());
                        assert forall|at: int| 0 <= at < rest.len() implies (
                        #[trigger] rest[at]).place.device < DEVICES_PER_BUS && rest[at].place.func
                            < FUNCTIONS_PER_DEVICE by {
                            assert(rest[at] == before.levels[at]);
                        }
                    }
                    let place = level.place;
                    if (place.func == 0 && multi) || (0 < place.func && place.func + 1
                        < FUNCTIONS_PER_DEVICE) {
                        let here = PCIPlace { func: place.func + 1, ..place };
                        self.levels.push(WalkLevel { place: here, bridge: None });
                        proof {
                            assert(self.levels() =~= rest.push(level_at(here)));
                        }
                        next = Some(here);
                        break ;
                    } else if place.device + 1 < DEVICES_PER_BUS {
                        let here = PCIPlace { bus: place.bus, device: place.device + 1, func: 0 };
                        self.levels.push(WalkLevel { place: here, bridge: None });
                        proof {
                            assert(self.levels() =~= rest.push(level_at(here)));
                        }
                        next = Some(here);
                        break ;
                    } else {
                        // The bus is done: the bridge that led to it is recorded.
                        match self.levels.pop() {
                            None => {
                                proof {
                                    assert(self.levels() =~= rest);
                                }
                                next = None;
                                break ;
                            },
                            Some(parent) => {
                                let ghost below = self.levels();
                                proof {
                                    assert(below =~= rest.drop_last());
                                    assert(parent@ == rest.last());
                                }
                                match parent.bridge {
                                    Some(bridge) => {
                                        multi = bridge.info.header_type.is_multi_function();
                                        controller.record_function(bridge);
                                    },
                                    None => {
                                        multi = false;
                                    },
                                }
                                self.levels.push(WalkLevel { place: parent.place, bridge: None });
                                proof {
                                    let now = self.view_with(controller);
                                    assert(now.levels =~= below.push(level_at(parent.place)));
                                    assert(now.levels.drop_last() =~= rest.drop_last());
                                    assert(now.levels.last().place == rest.last().place);
                                    let told = WalkView {
                                        levels: rest,
                                        devices: now.devices,
                                        max_bus: before.max_bus,
                                    };
                                    assert(move_on(now, multi) == move_on(told, multi));
                                }
                            },
                        }
                    }
                },
            }
        }
        next
    }

    /// Takes the walk one step on: `found` is what the probe of the place
    /// asked for last has found, `None` for an empty slot. The step names
    /// the next place to probe and, for a bridge that got its bus number
    /// now, the number to write to it.
    pub fn step(&mut self, controller: &mut PCIController, found: Option<PCIDevice>) -> (step:
        WalkStep)
        requires
            old(self).wf(),
            old(self).levels().len() > 0,
            old(controller).devices() is Some,
            found is Some && found->0@.is_bridge() && found->0@.secondary_bus == 0 ==> old(
                controller,
            ).max_bus() < u8::MAX,
        ensures
            final(self).wf(),
            final(controller).devices() is Some,
            (final(self).view_with(final(controller)), step) == step_outcome(
                old(self).view_with(old(controller)),
                match found {
                    Some(function) => Some(function@),
                    None => None,
                },
            ),
            match step.next {
                Some(next) => {
                    &&& next.device < DEVICES_PER_BUS
                    &&& next.func < FUNCTIONS_PER_DEVICE
                    &&& final(self).levels().len() > 0
                    &&& final(self).levels().last().place == next
                },
                None => final(self).levels().len() == 0,
            },
    {
        let ghost before = self.view_with(controller);
        match found {
            None => {
                proof {
                    lemma_move_on_in_range(before, false);
                }
                let next = self.move_on(controller, false);
                WalkStep { assigned: None, next }
            },
            Some(function) => {
                let mut function = function;
                let last = self.levels.len() - 1;
                let place = self.levels[last].place;
                assert(self.levels@[last as int]@ == before.levels.last());
                let check = controller.check_function(place.bus, &mut function);
                match check.descend {
                    Some(number) => {
                        controller.enumerate_bus(number);
                        let first = PCIPlace { bus: number, device: 0, func: 0 };
                        self.levels.pop();
                        self.levels.push(WalkLevel { place, bridge: Some(function) });
                        self.levels.push(WalkLevel { place: first, bridge: None });
                        proof {
                            assert(self.levels() =~= before.levels.drop_last().push(
                                WalkLevelView { place, bridge: Some(function@) },
                            ).push(level_at(first)));
                            assert forall|at: int| 0 <= at < self.levels().len() implies (
                            #[trigger] self.levels()[at]).place.device < DEVICES_PER_BUS
                                && self.levels()[at].place.func < FUNCTIONS_PER_DEVICE by {
                                if at < before.levels.len() - 1 {
                                    assert(self.levels()[at] == before.levels[at]);
                                }
                            }
                        }
                        WalkStep { assigned: check.assigned, next: Some(first) }
                    },
                    None => {
                        let multi = check.multi_function;
                        controller.record_function(function);
                        proof {
                            lemma_move_on_in_range(self.view_with(controller), multi);
                        }
                        let next = self.move_on(controller, multi);
                        WalkStep { assigned: check.assigned, next }
                    },
                }
            },
        }
    }
}

} // verus!
