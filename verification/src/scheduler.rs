//! The fixed-rate tick: inbound dispatch, the background group, the
//! physics chain, and the outbound flush, each phase complete before the
//! next begins.
//!
//! Background systems form an unordered set: two members may share a
//! phase only if their declared read/write sets are disjoint, and a
//! conflicting registration is rejected when it is made, never discovered
//! at runtime. The physics chain is strictly ordered with a barrier per
//! stage: within one tick every stage sees exactly what the stage before
//! it committed.

use vstd::prelude::*;

use crate::broadcast::{contains_id, message_wf, delivered_bytes, BroadcastQueue};
use crate::dispatch::{batch_valid, dispatch, event_for, Frame, HandlerEvent};
use crate::schema::{PacketRegistry, ProtocolState};
use crate::state::Connection;

verus! {

/// A system's declared state access: what it reads and what it writes,
/// as resource ids.
#[derive(Clone, PartialEq, Eq, Debug)]
pub struct SystemDecl {
    pub sys_id: u32,
    pub reads: Vec<u32>,
    pub writes: Vec<u32>,
}

/// No write/write and no read/write overlap between the two declarations.
pub open spec fn access_disjoint(a: SystemDecl, b: SystemDecl) -> bool {
    forall|x: u32|
        #![trigger a.writes@.contains(x)]
        #![trigger b.writes@.contains(x)]
        #![trigger a.reads@.contains(x)]
        #![trigger b.reads@.contains(x)]
        !(a.writes@.contains(x) && b.writes@.contains(x)) && !(a.writes@.contains(x)
            && b.reads@.contains(x)) && !(a.reads@.contains(x) && b.writes@.contains(x))
}

/// Some id is in both lists.
pub fn overlaps(a: &Vec<u32>, b: &Vec<u32>) -> (r: bool)
    ensures
        r == exists|x: u32| a@.contains(x) && b@.contains(x),
{
    let mut i: usize = 0;
    while i < a.len()
        invariant
            i <= a@.len(),
            forall|j: int| 0 <= j < i ==> !b@.contains(#[trigger] a@[j]),
        decreases a@.len() - i,
    {
        if contains_id(b, a[i]) {
            proof {
                assert(a@.contains(a@[i as int]));
            }
            return true;
        }
        i = i + 1;
    }
    proof {
        assert forall|x: u32| !(a@.contains(x) && b@.contains(x)) by {
            if a@.contains(x) && b@.contains(x) {
                let j = choose|j: int| 0 <= j < a@.len() && a@[j] == x;
                assert(!b@.contains(a@[j]));
            }
        }
    }
    false
}

/// Whether two declarations may not share a phase.
pub fn conflicts(a: &SystemDecl, b: &SystemDecl) -> (r: bool)
    ensures
        r == !access_disjoint(*a, *b),
{
    let ww = overlaps(&a.writes, &b.writes);
    let wr = overlaps(&a.writes, &b.reads);
    let rw = overlaps(&a.reads, &b.writes);
    proof {
        if ww {
            let x = choose|x: u32| a.writes@.contains(x) && b.writes@.contains(x);
            assert(a.writes@.contains(x) && b.writes@.contains(x));
            assert(!access_disjoint(*a, *b));
        } else if wr {
            let x = choose|x: u32| a.writes@.contains(x) && b.reads@.contains(x);
            assert(a.writes@.contains(x) && b.reads@.contains(x));
            assert(!access_disjoint(*a, *b));
        } else if rw {
            let x = choose|x: u32| a.reads@.contains(x) && b.writes@.contains(x);
            assert(a.reads@.contains(x) && b.writes@.contains(x));
            assert(!access_disjoint(*a, *b));
        } else {
            assert(access_disjoint(*a, *b)) by {
                assert forall|x: u32|
                    #![trigger a.writes@.contains(x)]
                    #![trigger b.writes@.contains(x)]
                    #![trigger a.reads@.contains(x)]
                    #![trigger b.reads@.contains(x)]
                    !(a.writes@.contains(x) && b.writes@.contains(x)) && !(a.writes@.contains(x)
                        && b.reads@.contains(x)) && !(a.reads@.contains(x)
                        && b.writes@.contains(x)) by {
                    assert(!(a.writes@.contains(x) && b.writes@.contains(x)));
                    assert(!(a.writes@.contains(x) && b.reads@.contains(x)));
                    assert(!(a.reads@.contains(x) && b.writes@.contains(x)));
                }
            }
        }
    }
    ww || wr || rw
}

/// Registering a system whose access overlaps a member of its group is a
/// construction-time fault.
#[derive(Clone, Copy, PartialEq, Eq, Structural, Debug)]
pub enum ScheduleError {
    ConflictingAccess,
}

/// An unordered system set: members may run in any order, or at once,
/// because their declared accesses are pairwise disjoint.
#[derive(Clone, PartialEq, Eq, Debug)]
pub struct UnorderedGroup {
    pub systems: Vec<SystemDecl>,
}

impl UnorderedGroup {
    pub open spec fn wf(&self) -> bool {
        forall|i: int, j: int|
            0 <= i < j < self.systems@.len() ==> access_disjoint(
                #[trigger] self.systems@[i],
                #[trigger] self.systems@[j],
            )
    }

    pub fn new() -> (r: Self)
        ensures
            r.systems@.len() == 0,
            r.wf(),
    {
        UnorderedGroup { systems: Vec::new() }
    }

    /// Admit a system exactly when its declared access is disjoint from
    /// every member already in the group; a conflict is rejected here, at
    /// registration, and the group stands unchanged.
    pub fn add_system(&mut self, s: SystemDecl) -> (r: Result<(), ScheduleError>)
        requires
            old(self).wf(),
        ensures
            final(self).wf(),
            match r {
                Ok(()) => {
                    &&& forall|i: int|
                        0 <= i < old(self).systems@.len() ==> access_disjoint(
                            #[trigger] old(self).systems@[i],
                            s,
                        )
                    &&& final(self).systems@ == old(self).systems@.push(s)
                },
                Err(e) => {
                    &&& e == ScheduleError::ConflictingAccess
                    &&& !(forall|i: int|
                        0 <= i < old(self).systems@.len() ==> access_disjoint(
                            #[trigger] old(self).systems@[i],
                            s,
                        ))
                    &&& final(self).systems@ == old(self).systems@
                },
            },
    {
        let mut i: usize = 0;
        while i < self.systems.len()
            invariant
                i <= self.systems@.len(),
                self.systems@ == old(self).systems@,
                self.wf(),
                forall|j: int|
                    0 <= j < i ==> access_disjoint(#[trigger] self.systems@[j], s),
            decreases self.systems@.len() - i,
        {
            if conflicts(&self.systems[i], &s) {
                proof {
                    assert(!access_disjoint(old(self).systems@[i as int], s));
                }
                return Err(ScheduleError::ConflictingAccess);
            }
            i = i + 1;
        }
        self.systems.push(s);
        proof {
            let es = final(self).systems@;
            assert forall|i: int, j: int|
                0 <= i < j < es.len() implies access_disjoint(
                #[trigger] es[i],
                #[trigger] es[j],
            ) by {
                if j < es.len() - 1 {
                    assert(es[i] == old(self).systems@[i] && es[j] == old(self).systems@[j]);
                } else {
                    assert(es[i] == old(self).systems@[i] && es[j] == s);
                }
            }
        }
        Ok(())
    }
}

/// A strict chain: stages run in this order, with a barrier between.
#[derive(Clone, PartialEq, Eq, Debug)]
pub struct Chain {
    pub stages: Vec<u32>,
}

/// The whole tick schedule: the background set, the physics chain, and
/// the mob systems.
#[derive(Clone, PartialEq, Eq, Debug)]
pub struct Schedule {
    pub background: UnorderedGroup,
    pub physics_chain: Chain,
    pub mob_systems: Vec<u32>,
}

impl Schedule {
    pub fn new() -> (r: Self)
        ensures
            r.background.systems@.len() == 0,
            r.background.wf(),
            r.physics_chain.stages@.len() == 0,
            r.mob_systems@.len() == 0,
    {
        Schedule {
            background: UnorderedGroup::new(),
            physics_chain: Chain { stages: Vec::new() },
            mob_systems: Vec::new(),
        }
    }
}

pub const SYS_CHUNK_SENDING: u32 = 1;
pub const SYS_CONNECTION_KILLER: u32 = 2;
pub const SYS_DAY_CYCLE: u32 = 3;
pub const SYS_MESSAGE_QUEUE: u32 = 4;
pub const SYS_ENTITY_UPDATES: u32 = 5;
pub const SYS_SERVER_COMMAND: u32 = 6;
pub const SYS_PIG_TICK: u32 = 7;

pub const STAGE_UNGROUND: u32 = 10;
pub const STAGE_GRAVITY: u32 = 11;
pub const STAGE_DRAG: u32 = 12;
pub const STAGE_VELOCITY: u32 = 13;
pub const STAGE_COLLISIONS: u32 = 14;

pub const RES_CHUNKS: u32 = 20;
pub const RES_CHUNK_QUEUE: u32 = 21;
pub const RES_CONNECTIONS: u32 = 22;
pub const RES_DAY_TIME: u32 = 23;
pub const RES_BROADCAST: u32 = 24;
pub const RES_OUTBOUND: u32 = 25;
pub const RES_ENTITY_VIEW: u32 = 26;
pub const RES_ENTITY_UPDATES: u32 = 27;
pub const RES_COMMANDS: u32 = 28;
pub const RES_COMMAND_LOG: u32 = 29;

/// The one declaration a system id stands for in the background set.
pub open spec fn background_decl(d: SystemDecl, sys_id: u32, reads: Seq<u32>, writes: Seq<u32>) -> bool {
    d.sys_id == sys_id && d.reads@ == reads && d.writes@ == writes
}

/// Exactly the six background systems, with their declared accesses.
pub open spec fn background_set(s: Seq<SystemDecl>) -> bool {
    &&& s.len() == 6
    &&& background_decl(s[0], SYS_CHUNK_SENDING, seq![RES_CHUNKS], seq![RES_CHUNK_QUEUE])
    &&& background_decl(s[1], SYS_CONNECTION_KILLER, Seq::empty(), seq![RES_CONNECTIONS])
    &&& background_decl(s[2], SYS_DAY_CYCLE, Seq::empty(), seq![RES_DAY_TIME])
    &&& background_decl(s[3], SYS_MESSAGE_QUEUE, seq![RES_BROADCAST], seq![RES_OUTBOUND])
    &&& background_decl(s[4], SYS_ENTITY_UPDATES, seq![RES_ENTITY_VIEW], seq![RES_ENTITY_UPDATES])
    &&& background_decl(s[5], SYS_SERVER_COMMAND, seq![RES_COMMANDS], seq![RES_COMMAND_LOG])
}

/// Register the background systems as one unordered set: exactly the
/// chunk-sending, connection-sweep, day-cycle, broadcast-drain,
/// entity-update and server-command systems, with their declared
/// accesses. The accesses are pairwise disjoint, so registration accepts
/// every one.
pub fn register_background_systems(schedule: &mut Schedule) -> (r: Result<(), ScheduleError>)
    requires
        old(schedule).background.wf(),
        old(schedule).background.systems@.len() == 0,
    ensures
        r is Ok,
        final(schedule).background.wf(),
        background_set(final(schedule).background.systems@),
        final(schedule).physics_chain == old(schedule).physics_chain,
        final(schedule).mob_systems == old(schedule).mob_systems,
{
    let d1 = SystemDecl { sys_id: SYS_CHUNK_SENDING, reads: vec![RES_CHUNKS], writes: vec![RES_CHUNK_QUEUE] };
    let d2 = SystemDecl { sys_id: SYS_CONNECTION_KILLER, reads: vec![], writes: vec![RES_CONNECTIONS] };
    let d3 = SystemDecl { sys_id: SYS_DAY_CYCLE, reads: vec![], writes: vec![RES_DAY_TIME] };
    let d4 = SystemDecl { sys_id: SYS_MESSAGE_QUEUE, reads: vec![RES_BROADCAST], writes: vec![RES_OUTBOUND] };
    let d5 = SystemDecl { sys_id: SYS_ENTITY_UPDATES, reads: vec![RES_ENTITY_VIEW], writes: vec![RES_ENTITY_UPDATES] };
    let d6 = SystemDecl { sys_id: SYS_SERVER_COMMAND, reads: vec![RES_COMMANDS], writes: vec![RES_COMMAND_LOG] };
    let ghost g1 = d1;
    let ghost g2 = d2;
    let ghost g3 = d3;
    let ghost g4 = d4;
    let ghost g5 = d5;
    let ghost g6 = d6;
    proof {
        assert(g1.reads@ =~= seq![RES_CHUNKS] && g1.writes@ =~= seq![RES_CHUNK_QUEUE]);
        assert(g2.reads@ =~= Seq::<u32>::empty() && g2.writes@ =~= seq![RES_CONNECTIONS]);
        assert(g3.reads@ =~= Seq::<u32>::empty() && g3.writes@ =~= seq![RES_DAY_TIME]);
        assert(g4.reads@ =~= seq![RES_BROADCAST] && g4.writes@ =~= seq![RES_OUTBOUND]);
        assert(g5.reads@ =~= seq![RES_ENTITY_VIEW] && g5.writes@ =~= seq![RES_ENTITY_UPDATES]);
        assert(g6.reads@ =~= seq![RES_COMMANDS] && g6.writes@ =~= seq![RES_COMMAND_LOG]);
    }
    let r1 = schedule.background.add_system(d1);
    if r1.is_err() {
        return r1;
    }
    let r2 = schedule.background.add_system(d2);
    if r2.is_err() {
        return r2;
    }
    let r3 = schedule.background.add_system(d3);
    if r3.is_err() {
        return r3;
    }
    let r4 = schedule.background.add_system(d4);
    if r4.is_err() {
        return r4;
    }
    let r5 = schedule.background.add_system(d5);
    if r5.is_err() {
        return r5;
    }
    let r6 = schedule.background.add_system(d6);
    if r6.is_err() {
        return r6;
    }
    proof {
        let s = final(schedule).background.systems@;
        assert(s[0] == g1 && s[1] == g2 && s[2] == g3 && s[3] == g4 && s[4] == g5 && s[5] == g6);
        assert(background_set(s));
    }
    Ok(())
}

/// Register the physics chain: the five stages in their fixed order,
/// with a barrier between each pair.
pub fn register_physics_systems(schedule: &mut Schedule)
    requires
        old(schedule).physics_chain.stages@.len() == 0,
    ensures
        final(schedule).physics_chain.stages@ == seq![
            STAGE_UNGROUND,
            STAGE_GRAVITY,
            STAGE_DRAG,
            STAGE_VELOCITY,
            STAGE_COLLISIONS,
        ],
        final(schedule).background == old(schedule).background,
        final(schedule).mob_systems == old(schedule).mob_systems,
{
    schedule.physics_chain.stages.push(STAGE_UNGROUND);
    schedule.physics_chain.stages.push(STAGE_GRAVITY);
    schedule.physics_chain.stages.push(STAGE_DRAG);
    schedule.physics_chain.stages.push(STAGE_VELOCITY);
    schedule.physics_chain.stages.push(STAGE_COLLISIONS);
    proof {
        assert(final(schedule).physics_chain.stages@ =~= seq![
            STAGE_UNGROUND,
            STAGE_GRAVITY,
            STAGE_DRAG,
            STAGE_VELOCITY,
            STAGE_COLLISIONS,
        ]);
    }
}

/// Register the mob systems.
pub fn register_mob_systems(schedule: &mut Schedule)
    ensures
        final(schedule).mob_systems@ == old(schedule).mob_systems@.push(SYS_PIG_TICK),
        final(schedule).background == old(schedule).background,
        final(schedule).physics_chain == old(schedule).physics_chain,
{
    schedule.mob_systems.push(SYS_PIG_TICK);
}

pub const GRAVITY_STEP: i64 = 8;
pub const DRAG_DIVISOR: i64 = 50;
pub const FLOOR_Y: i64 = 0;
pub const VEL_LIMIT: i64 = 0x4000_0000;
pub const POS_LIMIT: i64 = 0x4_0000_0000_0000;

/// One simulated entity as the physics chain sees it: a vertical
/// position, a vertical velocity, and whether it stands on ground.
#[derive(Clone, Copy, PartialEq, Eq, Structural, Debug)]
pub struct EntityState {
    pub pos: i64,
    pub vel: i64,
    pub grounded: bool,
}

/// Values the chain keeps within the world's bounds.
pub open spec fn entity_wf(e: EntityState) -> bool {
    &&& -VEL_LIMIT <= e.vel <= VEL_LIMIT
    &&& -POS_LIMIT <= e.pos <= POS_LIMIT
}

/// A rising entity leaves the ground.
pub open spec fn stage_unground(e: EntityState) -> EntityState {
    if e.vel > 0 {
        EntityState { grounded: false, ..e }
    } else {
        e
    }
}

/// An airborne entity accelerates downward, to a terminal velocity.
pub open spec fn stage_gravity(e: EntityState) -> EntityState {
    if !e.grounded {
        let nv: int = if e.vel - GRAVITY_STEP >= -(VEL_LIMIT as int) {
            e.vel - GRAVITY_STEP
        } else {
            -(VEL_LIMIT as int)
        };
        EntityState { vel: nv as i64, ..e }
    } else {
        e
    }
}

/// Drag shaves a fraction off the speed, toward zero.
pub open spec fn stage_drag(e: EntityState) -> EntityState {
    if e.vel >= 0 {
        EntityState { vel: (e.vel - e.vel as int / (DRAG_DIVISOR as int)) as i64, ..e }
    } else {
        EntityState { vel: (e.vel + (-(e.vel as int)) / (DRAG_DIVISOR as int)) as i64, ..e }
    }
}

/// Velocity moves the position, clamped at the world border.
pub open spec fn stage_velocity(e: EntityState) -> EntityState {
    let p: int = e.pos + e.vel;
    let np: int = if p > POS_LIMIT as int {
        POS_LIMIT as int
    } else if p < -(POS_LIMIT as int) {
        -(POS_LIMIT as int)
    } else {
        p
    };
    EntityState { pos: np as i64, ..e }
}

/// The floor stops a falling entity and grounds it.
pub open spec fn stage_collisions(e: EntityState) -> EntityState {
    if e.pos < FLOOR_Y {
        EntityState { pos: FLOOR_Y, vel: 0, grounded: true }
    } else {
        e
    }
}

/// One tick of the whole chain, in its fixed stage order.
pub open spec fn physics_step(e: EntityState) -> EntityState {
    stage_collisions(stage_velocity(stage_drag(stage_gravity(stage_unground(e)))))
}

/// The read-after-write guarantee of the chain, for each entity and
/// tick: the state drag reads is exactly the state gravity committed
/// this tick — never the pre-tick value — and so on down the chain.
pub proof fn lemma_chain_order(e: EntityState)
    ensures
        physics_step(e) == stage_collisions(
            stage_velocity(stage_drag(stage_gravity(stage_unground(e)))),
        ),
        stage_gravity(stage_unground(e)).vel >= 0 ==> stage_drag(
            stage_gravity(stage_unground(e)),
        ).vel == stage_gravity(stage_unground(e)).vel - stage_gravity(
            stage_unground(e),
        ).vel as int / (DRAG_DIVISOR as int),
{
}

/// Every stage keeps an entity within bounds.
pub proof fn lemma_stages_wf(e: EntityState)
    requires
        entity_wf(e),
    ensures
        entity_wf(stage_unground(e)),
        entity_wf(stage_gravity(e)),
        entity_wf(stage_drag(e)),
        entity_wf(stage_velocity(e)),
        entity_wf(stage_collisions(e)),
{
    if e.vel >= 0 {
        assert(0 <= e.vel as int / (DRAG_DIVISOR as int) <= e.vel) by (nonlinear_arith)
            requires e.vel >= 0;
    } else {
        assert(0 <= (-(e.vel as int)) / (DRAG_DIVISOR as int) <= -(e.vel as int))
            by (nonlinear_arith)
            requires e.vel < 0;
    }
}

/// Run one stage over every entity, to completion, before the caller
/// starts the next: the barrier between stages.
fn run_stage(entities: &mut Vec<EntityState>, stage: u32)
    requires
        stage == STAGE_UNGROUND || stage == STAGE_GRAVITY || stage == STAGE_DRAG || stage
            == STAGE_VELOCITY || stage == STAGE_COLLISIONS,
        forall|j: int| 0 <= j < old(entities)@.len() ==> entity_wf(#[trigger] old(entities)@[j]),
    ensures
        final(entities)@.len() == old(entities)@.len(),
        forall|j: int|
            0 <= j < old(entities)@.len() ==> #[trigger] final(entities)@[j] == apply_stage(
                stage,
                old(entities)@[j],
            ) && entity_wf(final(entities)@[j]),
{
    let n = entities.len();
    let mut j: usize = 0;
    while j < n
        invariant
            j <= n,
            n == entities@.len(),
            n == old(entities)@.len(),
            stage == STAGE_UNGROUND || stage == STAGE_GRAVITY || stage == STAGE_DRAG || stage
                == STAGE_VELOCITY || stage == STAGE_COLLISIONS,
            forall|i: int|
                0 <= i < old(entities)@.len() ==> entity_wf(#[trigger] old(entities)@[i]),
            forall|i: int|
                j <= i < n ==> #[trigger] entities@[i] == old(entities)@[i],
            forall|i: int|
                0 <= i < j ==> #[trigger] entities@[i] == apply_stage(stage, old(entities)@[i])
                    && entity_wf(entities@[i]),
        decreases n - j,
    {
        let e = entities[j];
        proof {
            lemma_stages_wf(e);
        }
        let ne: EntityState = if stage == STAGE_UNGROUND {
            if e.vel > 0 {
                EntityState { grounded: false, ..e }
            } else {
                e
            }
        } else if stage == STAGE_GRAVITY {
            if !e.grounded {
                EntityState {
                    vel: if e.vel - GRAVITY_STEP >= -VEL_LIMIT {
                        e.vel - GRAVITY_STEP
                    } else {
                        -VEL_LIMIT
                    },
                    ..e
                }
            } else {
                e
            }
        } else if stage == STAGE_DRAG {
            if e.vel >= 0 {
                EntityState { vel: e.vel - e.vel / DRAG_DIVISOR, ..e }
            } else {
                EntityState { vel: e.vel + (-e.vel) / DRAG_DIVISOR, ..e }
            }
        } else if stage == STAGE_VELOCITY {
            let p = e.pos + e.vel;
            EntityState {
                pos: if p > POS_LIMIT {
                    POS_LIMIT
                } else if p < -POS_LIMIT {
                    -POS_LIMIT
                } else {
                    p
                },
                ..e
            }
        } else {
            if e.pos < FLOOR_Y {
                EntityState { pos: FLOOR_Y, vel: 0, grounded: true }
            } else {
                e
            }
        };
        entities[j] = ne;
        j = j + 1;
    }
}

/// Which stage function a stage id denotes.
pub open spec fn apply_stage(stage: u32, e: EntityState) -> EntityState {
    if stage == STAGE_UNGROUND {
        stage_unground(e)
    } else if stage == STAGE_GRAVITY {
        stage_gravity(e)
    } else if stage == STAGE_DRAG {
        stage_drag(e)
    } else if stage == STAGE_VELOCITY {
        stage_velocity(e)
    } else {
        stage_collisions(e)
    }
}

/// The physics chain for one tick: the five stages in their fixed order,
/// each completing for every entity before the next begins, so that each
/// stage observes only what earlier stages committed this tick.
pub fn tick_physics(entities: &mut Vec<EntityState>)
    requires
        forall|j: int| 0 <= j < old(entities)@.len() ==> entity_wf(#[trigger] old(entities)@[j]),
    ensures
        final(entities)@.len() == old(entities)@.len(),
        forall|j: int|
            0 <= j < old(entities)@.len() ==> #[trigger] final(entities)@[j] == physics_step(
                old(entities)@[j],
            ) && entity_wf(final(entities)@[j]),
{
    run_stage(entities, STAGE_UNGROUND);
    run_stage(entities, STAGE_GRAVITY);
    run_stage(entities, STAGE_DRAG);
    run_stage(entities, STAGE_VELOCITY);
    run_stage(entities, STAGE_COLLISIONS);
}

/// The frames one connection's reader produced this tick, in arrival
/// order.
#[derive(Clone, PartialEq, Eq, Debug)]
pub struct FrameBatch {
    pub frames: Vec<Frame>,
}

/// Dispatch one connection's frames in arrival order. Success is owed
/// exactly when every frame in the batch is valid for the connection's
/// phase; then each frame runs exactly one handler and the connection is
/// untouched. The first invalid frame is fatal: the connection closes
/// and the rest of its frames are dropped.
pub fn dispatch_conn(
    conn: &mut Connection,
    batch: &FrameBatch,
    registry: &PacketRegistry,
    events: &mut Vec<HandlerEvent>,
) -> (r: Result<(), crate::WireError>)
    ensures
        final(conn).conn_id == old(conn).conn_id,
        old(events)@.is_prefix_of(final(events)@),
        r is Ok <==> batch_valid(registry.entries@, old(conn).state, batch.frames@),
        r is Ok ==> *final(conn) == *old(conn) && final(events)@.len() == old(events)@.len()
            + batch.frames@.len(),
        r is Ok ==> forall|i: int|
            0 <= i < batch.frames@.len() ==> event_for(
                registry.entries@,
                old(conn).state,
                old(conn).conn_id,
                #[trigger] batch.frames@[i],
                final(events)@[old(events)@.len() + i],
            ),
        r matches Err(e) ==> e != crate::WireError::HandlerError && final(conn).state
            == ProtocolState::Closed,
{
    let n = batch.frames.len();
    let mut k: usize = 0;
    while k < n
        invariant
            k <= n,
            n == batch.frames@.len(),
            *conn == *old(conn),
            old(events)@.is_prefix_of(events@),
            events@.len() == old(events)@.len() + k,
            forall|i: int|
                0 <= i < k ==> event_for(
                    registry.entries@,
                    old(conn).state,
                    old(conn).conn_id,
                    #[trigger] batch.frames@[i],
                    events@[old(events)@.len() + i],
                ),
            forall|i: int|
                0 <= i < k ==> {
                    let d = crate::schema::find_descriptor(
                        registry.entries@,
                        old(conn).state,
                        crate::schema::Direction::Serverbound,
                        (#[trigger] batch.frames@[i]).packet_id,
                    );
                    &&& d is Some
                    &&& crate::dispatch::inbound_kind(d->0)
                    &&& crate::dispatch::payload_decodes(d->0, batch.frames@[i].payload@)
                },
        decreases n - k,
    {
        let ghost pre = events@;
        let r = dispatch(conn, registry, &batch.frames[k], events);
        proof {
            assert(old(events)@.is_prefix_of(events@)) by {
                assert(old(events)@ =~= events@.subrange(0, old(events)@.len() as int)) by {
                    assert(old(events)@ =~= pre.subrange(0, old(events)@.len() as int));
                    assert(pre =~= events@.subrange(0, pre.len() as int));
                }
            }
        }
        match r {
            Ok(()) => {
                proof {
                    assert forall|i: int|
                        0 <= i < k + 1 implies event_for(
                        registry.entries@,
                        old(conn).state,
                        old(conn).conn_id,
                        #[trigger] batch.frames@[i],
                        events@[old(events)@.len() + i],
                    ) by {
                        if i < k {
                            assert(events@[old(events)@.len() + i] == pre[old(events)@.len()
                                + i]) by {
                                assert(pre =~= events@.subrange(0, pre.len() as int));
                            }
                        } else {
                            assert(events@[old(events)@.len() + i] == events@.last());
                        }
                    }
                }
            },
            Err(e) => {
                proof {
                    assert(!batch_valid(registry.entries@, old(conn).state, batch.frames@)) by {
                        if batch_valid(registry.entries@, old(conn).state, batch.frames@) {
                            assert(0 <= k < batch.frames@.len());
                            assert(batch.frames@[k as int] == batch.frames@[k as int]);
                        }
                    }
                }
                return Err(e);
            },
        }
        k = k + 1;
    }
    Ok(())
}

/// Phase one of a tick: dispatch every ready connection's inbound
/// frames, each connection's in arrival order. A connection whose batch
/// is valid for its phase comes out untouched with its handlers run; one
/// whose batch is not is closed. A connection's failure is its own: the
/// others go on, and no ordering holds across connections.
pub fn dispatch_all(
    conns: &mut Vec<Connection>,
    inbound: &Vec<FrameBatch>,
    registry: &PacketRegistry,
    events: &mut Vec<HandlerEvent>,
)
    requires
        inbound@.len() == old(conns)@.len(),
    ensures
        final(conns)@.len() == old(conns)@.len(),
        forall|j: int|
            0 <= j < old(conns)@.len() ==> (#[trigger] final(conns)@[j]).conn_id == old(
                conns,
            )@[j].conn_id,
        forall|j: int|
            0 <= j < old(conns)@.len() && batch_valid(
                registry.entries@,
                old(conns)@[j].state,
                inbound@[j].frames@,
            ) ==> #[trigger] final(conns)@[j] == old(conns)@[j],
        forall|j: int|
            0 <= j < old(conns)@.len() && !batch_valid(
                registry.entries@,
                old(conns)@[j].state,
                inbound@[j].frames@,
            ) ==> (#[trigger] final(conns)@[j]).state == ProtocolState::Closed,
        old(events)@.is_prefix_of(final(events)@),
{
    let n = conns.len();
    let mut j: usize = 0;
    while j < n
        invariant
            j <= n,
            n == conns@.len(),
            n == old(conns)@.len(),
            n == inbound@.len(),
            old(events)@.is_prefix_of(events@),
            forall|i: int|
                0 <= i < n ==> (#[trigger] conns@[i]).conn_id == old(conns)@[i].conn_id,
            forall|i: int| j <= i < n ==> #[trigger] conns@[i] == old(conns)@[i],
            forall|i: int|
                0 <= i < j && batch_valid(
                    registry.entries@,
                    old(conns)@[i].state,
                    inbound@[i].frames@,
                ) ==> #[trigger] conns@[i] == old(conns)@[i],
            forall|i: int|
                0 <= i < j && !batch_valid(
                    registry.entries@,
                    old(conns)@[i].state,
                    inbound@[i].frames@,
                ) ==> (#[trigger] conns@[i]).state == ProtocolState::Closed,
        decreases n - j,
    {
        let ghost prev = conns@;
        let mut c = conns.remove(j);
        let ghost pre = events@;
        let _ = dispatch_conn(&mut c, &inbound[j], registry, events);
        let ghost cfin = c;
        conns.insert(j, c);
        proof {
            assert(conns@ =~= prev.update(j as int, cfin));
            assert(old(events)@.is_prefix_of(events@)) by {
                assert(old(events)@ =~= events@.subrange(0, old(events)@.len() as int)) by {
                    assert(old(events)@ =~= pre.subrange(0, old(events)@.len() as int));
                    assert(pre =~= events@.subrange(0, pre.len() as int));
                }
            }
            assert forall|i: int|
                0 <= i < n implies (#[trigger] conns@[i]).conn_id == old(conns)@[i].conn_id by {}
        }
        j = j + 1;
    }
}

/// Whether any listed connection with this id is still open.
pub open spec fn conn_open(conns: Seq<Connection>, conn_id: u32) -> bool {
    exists|i: int|
        0 <= i < conns.len() && (#[trigger] conns[i]).conn_id == conn_id && conns[i].state
            != ProtocolState::Closed
}

/// Whether the connection with this id is open.
fn is_open(conns: &Vec<Connection>, conn_id: u32) -> (r: bool)
    ensures
        r == conn_open(conns@, conn_id),
{
    let n = conns.len();
    let mut i: usize = 0;
    while i < n
        invariant
            i <= n,
            n == conns@.len(),
            forall|k: int|
                0 <= k < i ==> !((#[trigger] conns@[k]).conn_id == conn_id && conns@[k].state
                    != ProtocolState::Closed),
        decreases n - i,
    {
        if conns[i].conn_id == conn_id && !(conns[i].state == ProtocolState::Closed) {
            proof {
                assert(conns@[i as int].conn_id == conn_id && conns@[i as int].state
                    != ProtocolState::Closed);
            }
            return true;
        }
        i = i + 1;
    }
    proof {
        assert(!conn_open(conns@, conn_id)) by {
            if conn_open(conns@, conn_id) {
                let k = choose|k: int|
                    0 <= k < conns@.len() && (#[trigger] conns@[k]).conn_id == conn_id
                        && conns@[k].state != ProtocolState::Closed;
                assert(!(conns@[k].conn_id == conn_id && conns@[k].state
                    != ProtocolState::Closed));
            }
        }
    }
    false
}

/// One openness flag per writer buffer, by connection id.
fn open_flags(conns: &Vec<Connection>, conn_ids: &Vec<u32>) -> (r: Vec<bool>)
    ensures
        r@.len() == conn_ids@.len(),
        forall|j: int| 0 <= j < conn_ids@.len() ==> #[trigger] r@[j] == conn_open(conns@, conn_ids@[j]),
{
    let n = conn_ids.len();
    let mut flags: Vec<bool> = Vec::new();
    let mut j: usize = 0;
    while j < n
        invariant
            j <= n,
            n == conn_ids@.len(),
            flags@.len() == j,
            forall|k: int| 0 <= k < j ==> #[trigger] flags@[k] == conn_open(conns@, conn_ids@[k]),
        decreases n - j,
    {
        flags.push(is_open(conns, conn_ids[j]));
        j = j + 1;
    }
    flags
}

/// The whole world as one tick sees it.
#[derive(Clone, PartialEq, Eq, Debug)]
pub struct World {
    pub entities: Vec<EntityState>,
    pub day_time: u64,
    pub tick_count: u64,
}

/// One tick: (1) inbound dispatch for every ready connection; (2) the
/// background set — here the day cycle and the broadcast drain; (3) the
/// physics chain. Each phase completes before the next begins; the
/// broadcast bytes an open connection receives are the queue's messages
/// in enqueue order, and a connection closed by this tick's dispatch (or
/// before) receives nothing further.
pub fn tick(
    world: &mut World,
    conns: &mut Vec<Connection>,
    inbound: &Vec<FrameBatch>,
    registry: &PacketRegistry,
    events: &mut Vec<HandlerEvent>,
    queue: &mut BroadcastQueue,
    conn_ids: &Vec<u32>,
    outs: &mut Vec<Vec<u8>>,
)
    requires
        inbound@.len() == old(conns)@.len(),
        conn_ids@.len() == old(outs)@.len(),
        old(world).day_time < 24000,
        old(world).tick_count < 0xFFFF_FFFF_FFFF_FFFF,
        forall|k: int|
            0 <= k < old(queue).queue@.len() ==> message_wf(#[trigger] old(queue).queue@[k]),
        forall|j: int|
            0 <= j < old(world).entities@.len() ==> entity_wf(#[trigger] old(world).entities@[j]),
    ensures
        final(world).tick_count == old(world).tick_count + 1,
        final(world).day_time == (old(world).day_time + 1) % 24000,
        final(queue).queue@.len() == 0,
        final(outs)@.len() == old(outs)@.len(),
        forall|j: int|
            0 <= j < conn_ids@.len() ==> (#[trigger] final(outs)@[j])@ == old(outs)@[j]@ + (
            if conn_open(final(conns)@, conn_ids@[j]) {
                delivered_bytes(old(queue).queue@, conn_ids@[j])
            } else {
                Seq::<u8>::empty()
            }),
        final(world).entities@.len() == old(world).entities@.len(),
        forall|j: int|
            0 <= j < old(world).entities@.len() ==> #[trigger] final(world).entities@[j]
                == physics_step(old(world).entities@[j]),
        final(conns)@.len() == old(conns)@.len(),
        forall|j: int|
            0 <= j < old(conns)@.len() && batch_valid(
                registry.entries@,
                old(conns)@[j].state,
                inbound@[j].frames@,
            ) ==> #[trigger] final(conns)@[j] == old(conns)@[j],
        forall|j: int|
            0 <= j < old(conns)@.len() && !batch_valid(
                registry.entries@,
                old(conns)@[j].state,
                inbound@[j].frames@,
            ) ==> (#[trigger] final(conns)@[j]).state == ProtocolState::Closed,
        old(events)@.is_prefix_of(final(events)@),
{
    dispatch_all(conns, inbound, registry, events);
    world.day_time = (world.day_time + 1) % 24000;
    world.tick_count = world.tick_count + 1;
    let open = open_flags(conns, conn_ids);
    queue.process(conn_ids, &open, outs);
    tick_physics(&mut world.entities);
}

} // verus!
