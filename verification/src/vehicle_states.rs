use vstd::prelude::*;
use vstd::std_specs::cmp::PartialEqSpecImpl;
use crate::block::Block;
use crate::ramp::Rgb;
use crate::text::{number_text, padded_number, push_char, push_text};
use crate::vehicle::{is_vehicle_grid, Vehicle};

verus! {

/// From this fitness on a vehicle counts as having reached the finish flag.
pub const FITNESS_FINISH_THRESHOLD: i64 = 14400;

/// Where a slot stands in its round: waiting, handed to the evaluator, or
/// finished with a final fitness.
#[derive(PartialEq, Eq, Debug, Clone, Copy, Structural)]
pub enum VehicleStatus {
    Pending,
    Running,
    Done,
}

/// The index of a slot in the ledger of one round.
#[derive(PartialEq, Eq, Debug, Clone, Copy, Structural)]
pub struct VehicleID(pub usize);

/// How many vehicles the evaluator can keep apart while they run together.
pub const COLLISION_GROUPS: usize = 32;

impl VehicleID {
    /// The collision group of a slot: one bit, by the index of the slot, so
    /// that vehicles that run together do not touch each other. The slots from
    /// `COLLISION_GROUPS` on have none.
    pub open spec fn spec_collision_group(self) -> Option<u32> {
        if self.0 < COLLISION_GROUPS {
            Some(1u32 << (self.0 as u32))
        } else {
            None
        }
    }

    #[verifier::when_used_as_spec(spec_collision_group)]
    pub fn collision_group(self) -> (group: Option<u32>)
        ensures
            group == self.spec_collision_group(),
    {
        if self.0 < COLLISION_GROUPS {
            Some(1u32 << (self.0 as u32))
        } else {
            None
        }
    }
}

/// One slot of the ledger: a vehicle and what is known of its run.
#[derive(Debug)]
pub struct VehicleState {
    pub vehicle: Vehicle,
    pub fitness: i64,
    pub status: VehicleStatus,
    pub reached_finish: bool,
    pub is_camera_target: bool,
    pub fell_apart: bool,
}

/// What a slot holds, the vehicle by its grid.
pub struct SlotView {
    pub vehicle: Seq<Seq<Block>>,
    pub fitness: i64,
    pub status: VehicleStatus,
    pub reached_finish: bool,
    pub is_camera_target: bool,
    pub fell_apart: bool,
}

/// The sign of a flag in the text of a slot: the sign where the flag is up, a
/// blank where it is down.
pub open spec fn flag_text(up: bool, sign: char) -> Seq<char> {
    if up {
        seq![sign]
    } else {
        seq![' ']
    }
}

/// What the text of a slot says of a vehicle that was handed out, after the
/// sign of its status: the fitness, written as `number`, and the signs of the
/// finish flag, of having fallen apart and of the camera.
pub open spec fn run_text(slot: SlotView, number: Seq<char>) -> Seq<char> {
    " fitness = "@ + number + seq![' '] + flag_text(slot.reached_finish, '\u{1f3c1}') + seq![' ']
        + flag_text(slot.fell_apart, '\u{274c}') + seq![' '] + flag_text(
        slot.is_camera_target,
        '\u{1f506}',
    )
}

/// The line that shows a slot in a list of the population, with the fitness
/// written as `number`: a clock for a pending slot; for a running and for a
/// done slot its sign and what is known of the run.
pub open spec fn slot_text_with(slot: SlotView, number: Seq<char>) -> Seq<char> {
    match slot.status {
        VehicleStatus::Pending => seq!['\u{1f552}'],
        VehicleStatus::Running => seq!['\u{1f504}'] + run_text(slot, number),
        VehicleStatus::Done => seq!['\u{2705}'] + run_text(slot, number),
    }
}

/// The line that shows a slot in a list of the population.
pub open spec fn slot_text(slot: SlotView) -> Seq<char> {
    slot_text_with(slot, padded_number(slot.fitness))
}

/// The slot of a vehicle that has not run yet.
pub open spec fn fresh_slot(vehicle: Seq<Seq<Block>>) -> SlotView {
    SlotView {
        vehicle,
        fitness: i64::MIN,
        status: VehicleStatus::Pending,
        reached_finish: false,
        is_camera_target: false,
        fell_apart: false,
    }
}

impl View for VehicleState {
    type V = SlotView;

    open spec fn view(&self) -> SlotView {
        SlotView {
            vehicle: self.vehicle@,
            fitness: self.fitness,
            status: self.status,
            reached_finish: self.reached_finish,
            is_camera_target: self.is_camera_target,
            fell_apart: self.fell_apart,
        }
    }
}

impl VehicleState {
    /// A slot with a random vehicle that has not run yet.
    pub fn new() -> (state: VehicleState)
        ensures
            state@ == fresh_slot(state.vehicle@),
            is_vehicle_grid(state.vehicle@),
    {
        VehicleState::from(Vehicle::new())
    }

    /// The line that shows this slot, with the fitness written as `number`.
    pub fn to_text_with(&self, number: &str) -> (text: String)
        ensures
            text@ == slot_text_with(self@, number@),
    {
        let mut text = String::new();
        match self.status {
            VehicleStatus::Pending => {
                push_char(&mut text, '\u{1f552}');
                assert(text@ =~= seq!['\u{1f552}']);
                return text;
            },
            VehicleStatus::Running => {
                push_char(&mut text, '\u{1f504}');
                assert(text@ =~= seq!['\u{1f504}']);
            },
            VehicleStatus::Done => {
                push_char(&mut text, '\u{2705}');
                assert(text@ =~= seq!['\u{2705}']);
            },
        }
        let ghost sign = text@;
        push_text(&mut text, " fitness = ");
        push_text(&mut text, number);
        push_char(&mut text, ' ');
        push_char(&mut text, if self.reached_finish { '\u{1f3c1}' } else { ' ' });
        push_char(&mut text, ' ');
        push_char(&mut text, if self.fell_apart { '\u{274c}' } else { ' ' });
        push_char(&mut text, ' ');
        push_char(&mut text, if self.is_camera_target { '\u{1f506}' } else { ' ' });
        assert(text@ =~= sign + run_text(self@, number@));
        text
    }

    /// The line that shows this slot in a list of the population.
    pub fn to_text(&self) -> (text: String)
        ensures
            text@ == slot_text(self@),
    {
        let number = number_text(self.fitness);
        self.to_text_with(number.as_str())
    }

    /// The slot of `v`, which has not run yet.
    pub fn from(v: Vehicle) -> (state: VehicleState)
        ensures
            state@ == fresh_slot(v@),
    {
        VehicleState {
            vehicle: v,
            fitness: i64::MIN,
            status: VehicleStatus::Pending,
            reached_finish: false,
            is_camera_target: false,
            fell_apart: false,
        }
    }
}

impl Clone for VehicleState {
    fn clone(&self) -> (copy: Self)
        ensures
            copy@ == self@,
    {
        VehicleState {
            vehicle: self.vehicle.clone(),
            fitness: self.fitness,
            status: self.status,
            reached_finish: self.reached_finish,
            is_camera_target: self.is_camera_target,
            fell_apart: self.fell_apart,
        }
    }
}

impl PartialEq for VehicleState {
    fn eq(&self, other: &VehicleState) -> (same: bool) {
        self.vehicle == other.vehicle && self.fitness == other.fitness && self.status
            == other.status && self.reached_finish == other.reached_finish
            && self.is_camera_target == other.is_camera_target && self.fell_apart
            == other.fell_apart
    }
}

impl PartialEqSpecImpl for VehicleState {
    open spec fn obeys_eq_spec() -> bool {
        true
    }

    open spec fn eq_spec(&self, other: &VehicleState) -> bool {
        self@ == other@
    }
}

/// What `finalize_vehicle` hands back: the vehicle of the slot, its final
/// fitness, and whether the slot had been finalized before.
#[derive(Debug)]
pub struct Finalized {
    pub vehicle: Vehicle,
    pub fitness: i64,
    pub repeated: bool,
}

/// How many of the slots before `end` are pending.
pub open spec fn pending_before(slots: Seq<SlotView>, end: int) -> nat
    decreases end,
{
    if end <= 0 {
        0
    } else {
        pending_before(slots, end - 1) + if slots[end - 1].status == VehicleStatus::Pending {
            1nat
        } else {
            0nat
        }
    }
}

/// A batch of at most `limit` slots takes slot `i`: it is pending, and fewer
/// than `limit` slots before it are.
pub open spec fn is_popped(slots: Seq<SlotView>, i: int, limit: nat) -> bool {
    slots[i].status == VehicleStatus::Pending && pending_before(slots, i) < limit
}

/// A slot with another status and all else as it was.
pub open spec fn with_status(slot: SlotView, status: VehicleStatus) -> SlotView {
    SlotView { status, ..slot }
}

/// The slots after a batch of at most `limit` was handed out: the first
/// `limit` pending slots are running, every other slot is as it was.
pub open spec fn after_pop(slots: Seq<SlotView>, limit: nat) -> Seq<SlotView> {
    Seq::new(
        slots.len(),
        |i: int|
            if is_popped(slots, i, limit) {
                with_status(slots[i], VehicleStatus::Running)
            } else {
                slots[i]
            },
    )
}

/// `entry` is the entry of rank `rank` in the batch that `limit` takes from
/// `slots`: the slot that is pending with `rank` pending slots before it, a
/// copy of its vehicle, and the colour of that rank.
pub open spec fn is_batch_entry(
    slots: Seq<SlotView>,
    limit: usize,
    rank: int,
    entry: (Vehicle, VehicleID, Rgb),
) -> bool {
    &&& entry.1.0 < slots.len()
    &&& slots[entry.1.0 as int].status == VehicleStatus::Pending
    &&& pending_before(slots, entry.1.0 as int) == rank
    &&& entry.0@ == slots[entry.1.0 as int].vehicle
    &&& entry.2 == Rgb::of_slot(rank as usize, limit)
}

/// A slot after a fitness was reported for it. The finish flag is raised from
/// the threshold on and stays up once raised.
pub open spec fn scored(slot: SlotView, fitness: i64, fell_apart: bool) -> SlotView {
    SlotView {
        fitness,
        fell_apart,
        reached_finish: slot.reached_finish || fitness >= FITNESS_FINISH_THRESHOLD,
        ..slot
    }
}

/// A slot with the camera flag set or cleared and all else as it was.
pub open spec fn with_target(slot: SlotView, target: bool) -> SlotView {
    SlotView { is_camera_target: target, ..slot }
}

/// `choice` is the slot that the camera follows: the running slot with the
/// greatest fitness, and of several such slots the last; none where no slot
/// is running.
pub open spec fn is_camera_choice(slots: Seq<SlotView>, choice: Option<VehicleID>) -> bool {
    match choice {
        None => forall|i: int|
            0 <= i < slots.len() ==> (#[trigger] slots[i]).status != VehicleStatus::Running,
        Some(id) => {
            &&& id.0 < slots.len()
            &&& slots[id.0 as int].status == VehicleStatus::Running
            &&& forall|i: int|
                0 <= i < slots.len() && (#[trigger] slots[i]).status == VehicleStatus::Running
                    ==> slots[i].fitness <= slots[id.0 as int].fitness
            &&& forall|i: int|
                id.0 < i < slots.len() && (#[trigger] slots[i]).status == VehicleStatus::Running
                    ==> slots[i].fitness < slots[id.0 as int].fitness
        },
    }
}

/// The ledger of one round: one slot for each vehicle of the population.
pub struct VehicleStates(Vec<VehicleState>);

impl View for VehicleStates {
    type V = Seq<SlotView>;

    open spec fn view(&self) -> Seq<SlotView> {
        self.slots().map_values(|state: VehicleState| state@)
    }
}

impl VehicleStates {
    /// The slots as they are stored.
    pub closed spec fn slots(&self) -> Seq<VehicleState> {
        self.0@
    }

    /// Every slot is done.
    pub open spec fn spec_all_done(&self) -> bool {
        forall|i: int| 0 <= i < self@.len() ==> (#[trigger] self@[i]).status == VehicleStatus::Done
    }

    /// A ledger of ten slots with random vehicles, all pending.
    pub fn new() -> (states: VehicleStates)
        ensures
            states@.len() == 10,
            forall|i: int|
                0 <= i < 10 ==> #[trigger] states@[i] == fresh_slot(states@[i].vehicle)
                    && is_vehicle_grid(states@[i].vehicle),
    {
        let mut v: Vec<VehicleState> = Vec::new();
        let mut i: usize = 0;
        while i < 10
            invariant
                i <= 10,
                v@.len() == i,
                forall|j: int|
                    0 <= j < i ==> (#[trigger] v@[j])@ == fresh_slot(v@[j].vehicle@)
                        && is_vehicle_grid(v@[j].vehicle@),
            decreases 10 - i,
        {
            v.push(VehicleState::new());
            i += 1;
        }
        VehicleStates(v)
    }

    /// The ledger of a population: one slot for each vehicle, in their order,
    /// all pending, without a fitness, every flag down.
    pub fn from(pop: Vec<Vehicle>) -> (states: VehicleStates)
        ensures
            states@.len() == pop@.len(),
            forall|i: int| 0 <= i < pop@.len() ==> #[trigger] states@[i] == fresh_slot(pop@[i]@),
    {
        let mut pop = pop;
        let ghost given = pop@;
        let mut v: Vec<VehicleState> = Vec::new();
        // The vehicles leave `pop` from its end, so the slots are built in
        // reverse and turned round afterwards.
        while pop.len() > 0
            invariant
                pop@.len() + v@.len() == given.len(),
                forall|j: int| 0 <= j < pop@.len() ==> pop@[j] == given[j],
                forall|j: int|
                    0 <= j < v@.len() ==> (#[trigger] v@[j])@ == fresh_slot(
                        given[given.len() - 1 - j]@,
                    ),
            decreases pop@.len(),
        {
            match pop.pop() {
                Some(vehicle) => {
                    v.push(VehicleState::from(vehicle));
                },
                None => {},
            }
        }
        let mut ordered: Vec<VehicleState> = Vec::new();
        while v.len() > 0
            invariant
                ordered@.len() + v@.len() == given.len(),
                forall|j: int|
                    0 <= j < v@.len() ==> (#[trigger] v@[j])@ == fresh_slot(
                        given[given.len() - 1 - j]@,
                    ),
                forall|j: int|
                    0 <= j < ordered@.len() ==> (#[trigger] ordered@[j])@ == fresh_slot(given[j]@),
            decreases v@.len(),
        {
            match v.pop() {
                Some(state) => {
                    ordered.push(state);
                },
                None => {},
            }
        }
        VehicleStates(ordered)
    }

    /// True exactly when every slot is done: the round is over.
    #[verifier::when_used_as_spec(spec_all_done)]
    pub fn all_done(&self) -> (done: bool)
        ensures
            done == self.spec_all_done(),
    {
        let mut i: usize = 0;
        while i < self.0.len()
            invariant
                i <= self.0@.len(),
                forall|j: int| 0 <= j < i ==> (#[trigger] self@[j]).status == VehicleStatus::Done,
            decreases self.0@.len() - i,
        {
            if self.0[i].status != VehicleStatus::Done {
                assert(self@[i as int].status != VehicleStatus::Done);
                return false;
            }
            i += 1;
        }
        true
    }

    /// The slots, to read.
    pub fn get_vehicle_states(&self) -> (states: &Vec<VehicleState>)
        ensures
            states@ == self.slots(),
    {
        &self.0
    }

    /// The slots, to change in place.
    pub fn get_vehicle_states_mut(&mut self) -> (states: &mut Vec<VehicleState>)
        ensures
            states@ == old(self).slots(),
            final(self).slots() == final(states)@,
    {
        &mut self.0
    }

    /// Hands out the next batch: the first `limit` pending slots, in the order
    /// of their indices, or all pending slots if there are fewer. Each of them
    /// becomes running and comes back with a copy of its vehicle, its index and
    /// its colour. With no pending slot the batch is empty and nothing changes.
    pub fn pop_vehicles(&mut self, limit: usize) -> (popped: Vec<(Vehicle, VehicleID, Rgb)>)
        ensures
            final(self)@ == after_pop(old(self)@, limit as nat),
            popped@.len() == if limit <= pending_before(old(self)@, old(self)@.len() as int) {
                limit as nat
            } else {
                pending_before(old(self)@, old(self)@.len() as int)
            },
            forall|j: int|
                0 <= j < popped@.len() ==> is_batch_entry(
                    old(self)@,
                    limit,
                    j,
                    #[trigger] popped@[j],
                ),
    {
        let ghost before = self@;
        let mut popped: Vec<(Vehicle, VehicleID, Rgb)> = Vec::new();
        let mut i: usize = 0;
        while i < self.0.len()
            invariant
                i <= self.0@.len(),
                self@.len() == before.len(),
                popped@.len() == if limit <= pending_before(before, i as int) {
                    limit as nat
                } else {
                    pending_before(before, i as int)
                },
                forall|j: int|
                    0 <= j < popped@.len() ==> is_batch_entry(
                        before,
                        limit,
                        j,
                        #[trigger] popped@[j],
                    ),
                forall|k: int|
                    0 <= k < i ==> #[trigger] self@[k] == after_pop(before, limit as nat)[k],
                forall|k: int| i <= k < before.len() ==> #[trigger] self@[k] == before[k],
            decreases self.0@.len() - i,
        {
            assert(self@[i as int] == before[i as int]);
            if self.0[i].status == VehicleStatus::Pending && popped.len() < limit {
                let rank: usize = popped.len();
                let ghost slots_before = self.0@;
                let ghost view_before = self@;
                self.0[i].status = VehicleStatus::Running;
                let color = Rgb::for_slot(rank, limit);
                let vehicle = self.0[i].vehicle.clone();
                popped.push((vehicle, VehicleID(i), color));
                proof {
                    assert(pending_before(before, i as int) == rank);
                    assert(is_popped(before, i as int, limit as nat));
                    assert(self@[i as int] == after_pop(before, limit as nat)[i as int]);
                    assert forall|k: int| 0 <= k < i implies #[trigger] self@[k] == after_pop(
                        before,
                        limit as nat,
                    )[k] by {
                        assert(self.0@[k] == slots_before[k]);
                        assert(self@[k] == view_before[k]);
                    }
                    assert forall|k: int| i < k < before.len() implies #[trigger] self@[k]
                        == before[k] by {
                        assert(self.0@[k] == slots_before[k]);
                        assert(self@[k] == view_before[k]);
                    }
                }
            } else {
                proof {
                    assert(!is_popped(before, i as int, limit as nat));
                }
            }
            i += 1;
        }
        assert(self@ =~= after_pop(before, limit as nat));
        popped
    }

    /// Moves the camera flag to the slot that the camera follows now, which
    /// comes back, and clears it on every other slot.
    pub fn mark_camera_target(&mut self) -> (target: Option<VehicleID>)
        ensures
            is_camera_choice(old(self)@, target),
            final(self)@.len() == old(self)@.len(),
            forall|i: int|
                0 <= i < old(self)@.len() ==> #[trigger] final(self)@[i] == with_target(
                    old(self)@[i],
                    target == Some(VehicleID(i as usize)),
                ),
    {
        let ghost before = self@;
        let mut target: Option<VehicleID> = None;
        let mut i: usize = 0;
        while i < self.0.len()
            invariant
                i <= self.0@.len(),
                self@.len() == before.len(),
                is_camera_choice(before.take(i as int), target),
                forall|k: int| 0 <= k < i ==> #[trigger] self@[k] == with_target(before[k], false),
                forall|k: int| i <= k < before.len() ==> #[trigger] self@[k] == before[k],
            decreases self.0@.len() - i,
        {
            let ghost slots_before = self.0@;
            let ghost view_before = self@;
            assert(self@[i as int] == before[i as int]);
            self.0[i].is_camera_target = false;
            let leads = self.0[i].status == VehicleStatus::Running && match target {
                None => true,
                Some(id) => {
                    assert(before.take(i as int)[id.0 as int] == before[id.0 as int]);
                    assert(self@[id.0 as int] == view_before[id.0 as int]);
                    self.0[i].fitness >= self.0[id.0].fitness
                },
            };
            let ghost earlier = target;
            if leads {
                target = Some(VehicleID(i));
            }
            proof {
                assert forall|k: int| 0 <= k < before.len() && k != i implies #[trigger] self@[k]
                    == view_before[k] by {
                    assert(self.0@[k] == slots_before[k]);
                }
                let shorter = before.take(i as int);
                let longer = before.take(i as int + 1);
                assert forall|k: int| 0 <= k < i implies #[trigger] longer[k] == shorter[k] by {}
                assert(longer[i as int] == before[i as int]);
                if let Some(id) = earlier {
                    assert(shorter[id.0 as int] == longer[id.0 as int]);
                }
                assert(is_camera_choice(longer, target)) by {
                    assert forall|k: int| 0 <= k < i implies (#[trigger] longer[k]).status
                        == shorter[k].status && longer[k].fitness == shorter[k].fitness by {}
                }
            }
            i += 1;
        }
        assert(before.take(i as int) =~= before);
        match target {
            Some(id) => {
                let ghost slots_before = self.0@;
                let ghost view_before = self@;
                self.0[id.0].is_camera_target = true;
                proof {
                    assert forall|k: int| 0 <= k < before.len() implies #[trigger] self@[k]
                        == with_target(before[k], target == Some(VehicleID(k as usize))) by {
                        if k != id.0 {
                            assert(self.0@[k] == slots_before[k]);
                            assert(self@[k] == view_before[k]);
                            assert(VehicleID(k as usize) != id);
                        } else {
                            assert(view_before[k] == with_target(before[k], false));
                        }
                    }
                }
            },
            None => {
                assert forall|k: int| 0 <= k < before.len() implies #[trigger] self@[k]
                    == with_target(before[k], target == Some(VehicleID(k as usize))) by {}
            },
        }
        target
    }

    /// Records the fitness that the evaluator reports for a slot, and whether
    /// the vehicle fell apart; raises the finish flag from the threshold on.
    pub fn set_fitness(&mut self, id: VehicleID, new_fitness: i64, fell_apart: bool)
        requires
            id.0 < old(self)@.len(),
        ensures
            final(self)@ == old(self)@.update(
                id.0 as int,
                scored(old(self)@[id.0 as int], new_fitness, fell_apart),
            ),
    {
        let i: usize = id.0;
        let ghost slots_before = self.0@;
        self.0[i].fitness = new_fitness;
        if new_fitness >= FITNESS_FINISH_THRESHOLD {
            self.0[i].reached_finish = true;
        }
        self.0[i].fell_apart = fell_apart;
        proof {
            assert forall|k: int| 0 <= k < self@.len() && k != i implies self@[k] == old(
                self,
            )@[k] by {
                assert(self.0@[k] == slots_before[k]);
            }
            assert(self@ =~= old(self)@.update(
                i as int,
                scored(old(self)@[i as int], new_fitness, fell_apart),
            ));
        }
    }

    /// Closes a slot that was handed out: it becomes done, and its vehicle and
    /// final fitness come back. A slot that is done already stays as it is and
    /// is reported as repeated. A pending slot was never handed out and cannot
    /// be closed.
    pub fn finalize_vehicle(&mut self, id: VehicleID) -> (done: Finalized)
        requires
            id.0 < old(self)@.len(),
            old(self)@[id.0 as int].status != VehicleStatus::Pending,
        ensures
            final(self)@ == old(self)@.update(
                id.0 as int,
                with_status(old(self)@[id.0 as int], VehicleStatus::Done),
            ),
            done.vehicle@ == old(self)@[id.0 as int].vehicle,
            done.fitness == old(self)@[id.0 as int].fitness,
            done.repeated == (old(self)@[id.0 as int].status == VehicleStatus::Done),
    {
        let i: usize = id.0;
        let ghost slots_before = self.0@;
        assert(self@[i as int] == self.0@[i as int]@);
        let repeated = match self.0[i].status {
            VehicleStatus::Running => false,
            VehicleStatus::Done => true,
            VehicleStatus::Pending => vstd::pervasive::unreached(),
        };
        self.0[i].status = VehicleStatus::Done;
        let fitness: i64 = self.0[i].fitness;
        let vehicle = self.0[i].vehicle.clone();
        proof {
            assert forall|k: int| 0 <= k < self@.len() && k != i implies self@[k] == old(
                self,
            )@[k] by {
                assert(self.0@[k] == slots_before[k]);
            }
            assert(self@ =~= old(self)@.update(
                i as int,
                with_status(old(self)@[i as int], VehicleStatus::Done),
            ));
        }
        Finalized { vehicle, fitness, repeated }
    }
}

impl Clone for VehicleStates {
    fn clone(&self) -> (copy: Self)
        ensures
            copy@ == self@,
    {
        let mut v: Vec<VehicleState> = Vec::new();
        let mut i: usize = 0;
        while i < self.0.len()
            invariant
                i <= self.0@.len(),
                v@.len() == i,
                forall|j: int| 0 <= j < i ==> (#[trigger] v@[j])@ == self@[j],
            decreases self.0@.len() - i,
        {
            v.push(self.0[i].clone());
            i += 1;
        }
        let copy = VehicleStates(v);
        assert(copy@ =~= self@);
        copy
    }
}

} // verus!
