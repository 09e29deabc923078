use vstd::prelude::*;

use crate::grid::IVec2;

verus! {

/// The stage of an agent's current pickup-and-delivery task.
#[derive(Clone, Copy, Debug, PartialEq, Eq, Structural, Default)]
pub enum TaskLeg {
    #[default]
    Free,
    /// Heading to pickup zone to collect cargo (empty travel / deadheading).
    TravelEmpty(IVec2),
    /// At pickup zone, loading cargo.
    Loading(IVec2),
    /// Traveling to the back of a delivery queue line.
    /// `from` = pickup cell, `to` = delivery cell, `line_index` = queue line index.
    TravelToQueue { from: IVec2, to: IVec2, line_index: usize },
    /// Physically waiting in a delivery queue slot.
    Queuing { from: IVec2, to: IVec2, line_index: usize },
    /// Carrying cargo to delivery zone (loaded travel).
    TravelLoaded { from: IVec2, to: IVec2 },
    /// At delivery zone, unloading cargo.
    Unloading { from: IVec2, to: IVec2 },
    /// Reserved for an energy system.
    Charging,
}

/// Number of slots in the task-heat palette: one for each kind of leg, so
/// that in detailed mode every leg is drawn in a colour of its own.
pub const TASK_STATES: usize = 8;

/// The label of each leg, as exported and shown in the UI.
pub open spec fn leg_label(leg: TaskLeg) -> Seq<char> {
    match leg {
        TaskLeg::Free => "free"@,
        TaskLeg::TravelEmpty(_) => "travel_empty"@,
        TaskLeg::Loading(_) => "loading"@,
        TaskLeg::TravelToQueue { .. } => "travel_to_queue"@,
        TaskLeg::Queuing { .. } => "queuing"@,
        TaskLeg::TravelLoaded { .. } => "travel_loaded"@,
        TaskLeg::Unloading { .. } => "unloading"@,
        TaskLeg::Charging => "charging"@,
    }
}

/// The slot of each leg in the task-heat palette: the legs in the order they
/// are declared, `Charging` in the last slot.
pub open spec fn leg_palette_index(leg: TaskLeg) -> nat {
    match leg {
        TaskLeg::Free => 0,
        TaskLeg::TravelEmpty(_) => 1,
        TaskLeg::Loading(_) => 2,
        TaskLeg::TravelToQueue { .. } => 3,
        TaskLeg::Queuing { .. } => 4,
        TaskLeg::TravelLoaded { .. } => 5,
        TaskLeg::Unloading { .. } => 6,
        TaskLeg::Charging => 7,
    }
}

impl TaskLeg {
    pub fn label(&self) -> (s: &'static str)
        ensures
            s@ == leg_label(*self),
    {
        match self {
            TaskLeg::Free => "free",
            TaskLeg::TravelEmpty(_) => "travel_empty",
            TaskLeg::Loading(_) => "loading",
            TaskLeg::TravelToQueue { .. } => "travel_to_queue",
            TaskLeg::Queuing { .. } => "queuing",
            TaskLeg::TravelLoaded { .. } => "travel_loaded",
            TaskLeg::Unloading { .. } => "unloading",
            TaskLeg::Charging => "charging",
        }
    }

    /// Index into the task-heat palette: one of its `TASK_STATES` slots.
    pub fn palette_index(&self) -> (i: usize)
        ensures
            i == leg_palette_index(*self),
            i < TASK_STATES,
    {
        match self {
            TaskLeg::Free => 0,
            TaskLeg::TravelEmpty(_) => 1,
            TaskLeg::Loading(_) => 2,
            TaskLeg::TravelToQueue { .. } => 3,
            TaskLeg::Queuing { .. } => 4,
            TaskLeg::TravelLoaded { .. } => 5,
            TaskLeg::Unloading { .. } => 6,
            TaskLeg::Charging => 7,
        }
    }
}

/// Distinct legs carry distinct labels and distinct palette slots.
pub proof fn lemma_labels_and_slots_identify_the_leg_kind(a: TaskLeg, b: TaskLeg)
    ensures
        (leg_label(a) == leg_label(b)) <==> (leg_palette_index(a) == leg_palette_index(b)),
{
    reveal_strlit("free");
    reveal_strlit("travel_empty");
    reveal_strlit("loading");
    reveal_strlit("travel_to_queue");
    reveal_strlit("queuing");
    reveal_strlit("travel_loaded");
    reveal_strlit("unloading");
    reveal_strlit("charging");
    if leg_label(a) == leg_label(b) {
        assert(leg_label(a).len() == leg_label(b).len());
        assert(leg_label(a)[0] == leg_label(b)[0]);
    }
}

/// Every slot of the task-heat palette belongs to some leg. Together with
/// `lemma_labels_and_slots_identify_the_leg_kind`, which keeps kinds of leg
/// apart, each slot is the colour of exactly one kind.
pub proof fn lemma_every_palette_slot_is_one_legs(slot: nat)
    requires
        slot < TASK_STATES,
    ensures
        exists|leg: TaskLeg| leg_palette_index(leg) == slot,
{
    let z = IVec2 { x: 0, y: 0 };
    let legs = seq![
        TaskLeg::Free,
        TaskLeg::TravelEmpty(z),
        TaskLeg::Loading(z),
        TaskLeg::TravelToQueue { from: z, to: z, line_index: 0 },
        TaskLeg::Queuing { from: z, to: z, line_index: 0 },
        TaskLeg::TravelLoaded { from: z, to: z },
        TaskLeg::Unloading { from: z, to: z },
        TaskLeg::Charging,
    ];
    assert(leg_palette_index(legs[slot as int]) == slot);
}

/// The pickup and delivery cells of a map's zones.
pub struct ZoneMap {
    pub pickup_cells: Vec<IVec2>,
    pub delivery_cells: Vec<IVec2>,
    pub corridor_cells: Vec<IVec2>,
    pub recharging_cells: Vec<IVec2>,
}

} // verus!
