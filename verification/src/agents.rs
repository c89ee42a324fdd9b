//! The route an agent follows, and when it asks for a new one.

use vstd::prelude::*;

verus! {

/// Idle agents that get a route in one turn.
pub const MAX_ROUTES_PER_TURN: usize = 5;

/// Where an agent stands with its route.
#[derive(Debug, Clone, Copy, PartialEq, Eq, Structural)]
pub enum AgentState {
    /// The agent waits for a route.
    Idle,
    /// The agent walks to waypoint `current` of a route of `len` waypoints.
    Routed { len: usize, current: usize },
    /// No route leads from the agent to the goal.
    Stranded,
}

/// What an agent meets.
#[derive(Debug, Clone, Copy, PartialEq, Eq, Structural)]
pub enum AgentEvent {
    /// A route was asked for; it has `waypoints` waypoints, none if there
    /// is no route.
    Route { waypoints: usize },
    /// The navigation mesh was rebuilt.
    MeshChanged,
    /// The agent reached the waypoint it walked to.
    Reached,
}

impl AgentState {
    /// A routed agent walks to a waypoint of its route.
    pub open spec fn wf(self) -> bool {
        match self {
            AgentState::Routed { len, current } => current < len,
            _ => true,
        }
    }

    /// The state after an event. An idle agent takes the route it is
    /// given, and is stranded if there is none; a routed agent goes back
    /// to idle when the mesh changes under it or when it reaches the last
    /// waypoint, and on to the next waypoint when it reaches another.
    pub open spec fn after(self, event: AgentEvent) -> AgentState {
        match (self, event) {
            (AgentState::Idle, AgentEvent::Route { waypoints }) => if waypoints > 0 {
                AgentState::Routed { len: waypoints, current: 0 }
            } else {
                AgentState::Stranded
            },
            (AgentState::Routed { len, current }, AgentEvent::MeshChanged) => AgentState::Idle,
            (AgentState::Routed { len, current }, AgentEvent::Reached) => if current + 1 < len {
                AgentState::Routed { len, current: (current + 1) as usize }
            } else {
                AgentState::Idle
            },
            _ => self,
        }
    }

    /// Moves the agent through one event.
    pub fn step(self, event: AgentEvent) -> (next: AgentState)
        ensures
            next == self.after(event),
            self.wf() ==> next.wf(),
    {
        match self {
            AgentState::Idle => match event {
                AgentEvent::Route { waypoints } => if waypoints > 0 {
                    AgentState::Routed { len: waypoints, current: 0 }
                } else {
                    AgentState::Stranded
                },
                _ => self,
            },
            AgentState::Routed { len, current } => match event {
                AgentEvent::MeshChanged => AgentState::Idle,
                AgentEvent::Reached => if len > 0 && current < len - 1 {
                    AgentState::Routed { len, current: current + 1 }
                } else {
                    AgentState::Idle
                },
                _ => self,
            },
            AgentState::Stranded => self,
        }
    }
}

/// A routed agent never walks on a route that the mesh has left behind:
/// once the mesh changes it is idle, and from idle only a fresh route
/// moves it.
pub proof fn lemma_stale_route_is_dropped(state: AgentState, next: AgentEvent)
    requires
        state.wf(),
    ensures
        !(state.after(AgentEvent::MeshChanged) is Routed),
        state.after(AgentEvent::MeshChanged).after(next) is Routed ==> next is Route,
        state.after(next).wf(),
{
}

/// What one turn does with the agents.
#[derive(Debug, Clone, Copy, PartialEq, Eq, Structural)]
pub struct TurnPlan {
    /// Idle agents to ask a route for, in the order they come.
    pub routes: usize,
    /// Whether the routed agents are looked at in this turn: they are not
    /// once the turn has spent its routes.
    pub updates: bool,
}

/// Plans a turn with `idle` idle agents.
pub fn plan_turn(idle: usize) -> (plan: TurnPlan)
    ensures
        plan.routes == if idle < MAX_ROUTES_PER_TURN { idle } else { MAX_ROUTES_PER_TURN },
        plan.updates == (idle < MAX_ROUTES_PER_TURN),
{
    if idle < MAX_ROUTES_PER_TURN {
        TurnPlan { routes: idle, updates: true }
    } else {
        TurnPlan { routes: MAX_ROUTES_PER_TURN, updates: false }
    }
}

} // verus!
