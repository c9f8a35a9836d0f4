//! The broadcast engine: every system sees every event, in the order in
//! which the systems were added, and their output lines are concatenated.

use vstd::prelude::*;
use crate::adventure::{first_flaw, flaw_message, opens, sound, Adventure, AdventureError};
use crate::command::Command;
use crate::game_state::GameState;
use crate::systems::{
    law_basic_world_replays, law_inventory_replays, replayable, BasicWorldSystem,
    InventorySystem, System,
};
use crate::text::texts;

verus! {

/// The narrative lines that a step of the engine produced.
#[derive(Debug, Clone, PartialEq, Eq)]
pub struct EngineOutput {
    pub lines: Vec<String>,
}

impl EngineOutput {
    /// The lines as character sequences.
    pub open spec fn text(&self) -> Seq<Seq<char>> {
        texts(self.lines@)
    }

    /// An output without lines.
    pub fn new() -> (r: Self)
        ensures
            r.lines@.len() == 0,
            r.text() == Seq::<Seq<char>>::empty(),
    {
        let r = EngineOutput { lines: Vec::new() };
        assert(r.text() =~= Seq::<Seq<char>>::empty());
        r
    }

    /// An output without lines.
    pub fn none() -> (r: Self)
        ensures
            r.lines@.len() == 0,
            r.text() == Seq::<Seq<char>>::empty(),
    {
        Self::new()
    }

    /// An output of one line.
    pub fn line(line: &str) -> (r: Self)
        ensures
            r.text() == seq![line@],
    {
        let mut lines: Vec<String> = Vec::new();
        lines.push(String::from_str(line));
        let r = EngineOutput { lines };
        assert(r.text() =~= seq![line@]);
        r
    }

    /// An output of the given lines, in order.
    pub fn lines<const N: usize>(lines: [&'static str; N]) -> (r: Self)
        ensures
            r.text() == Seq::new(N as nat, |i: int| lines@[i]@),
    {
        let mut out: Vec<String> = Vec::new();
        let mut i: usize = 0;
        while i < N
            invariant
                i <= N,
                out@.len() == i,
                forall|j: int| 0 <= j < i ==> out@[j]@ == lines@[j]@,
            decreases N - i,
        {
            out.push(String::from_str(lines[i]));
            i = i + 1;
        }
        let r = EngineOutput { lines: out };
        assert(r.text() =~= Seq::new(N as nat, |i: int| lines@[i]@));
        r
    }

    /// Adds `line` after the lines already there.
    pub fn push(&mut self, line: String)
        ensures
            final(self).lines@ == old(self).lines@.push(line),
            final(self).text() == old(self).text().push(line@),
    {
        self.lines.push(line);
        assert(self.text() =~= old(self).text().push(line@));
    }

    /// Adds the lines of `other` after the lines already there.
    pub fn extend(&mut self, other: EngineOutput)
        ensures
            final(self).lines@ == old(self).lines@ + other.lines@,
            final(self).text() == old(self).text() + other.text(),
    {
        let ghost added = other.text();
        let mut rest = other.lines;
        self.lines.append(&mut rest);
        assert(self.text() =~= old(self).text() + added);
    }

    /// Whether there is no line.
    pub fn is_empty(&self) -> (r: bool)
        ensures
            r == (self.lines@.len() == 0),
    {
        self.lines.len() == 0
    }
}

/// What the engine is asked to react to.
#[derive(Debug, Clone, PartialEq, Eq)]
pub enum EngineEvent {
    Command(Command),
}

/// The mathematical value of an [`EngineEvent`].
pub enum EngineEventView {
    Command(crate::command::CommandView),
}

impl View for EngineEvent {
    type V = EngineEventView;

    open spec fn view(&self) -> EngineEventView {
        match *self {
            EngineEvent::Command(c) => EngineEventView::Command(c@),
        }
    }
}

/// Whether the first `n` systems, offered `event` one after the other from
/// state `start` on, may become the first `n` of `after`, leave the state
/// `end` and say `lines` between them: the last of them takes the state
/// from where the others left it, leaves it valid, and its lines come last.
pub open spec fn chain<S: System>(
    systems: Seq<S>,
    n: int,
    start: GameState,
    event: EngineEvent,
    after: Seq<S>,
    end: GameState,
    lines: Seq<Seq<char>>,
) -> bool
    decreases n,
{
    if n <= 0 {
        end == start && lines == Seq::<Seq<char>>::empty()
    } else {
        exists|mid: GameState, now: Seq<Seq<char>>| #[trigger]
            systems[n - 1].reacts(mid, event, after[n - 1], end, now) && end.valid() && now.len()
                <= lines.len() && now == lines.subrange(
                lines.len() - now.len(),
                lines.len() as int,
            ) && chain(
                systems,
                n - 1,
                start,
                event,
                after,
                mid,
                lines.subrange(0, lines.len() - now.len()),
            )
    }
}

/// One more system extends a chain.
pub proof fn lemma_chain_step<S: System>(
    systems: Seq<S>,
    n: int,
    start: GameState,
    event: EngineEvent,
    after: Seq<S>,
    mid: GameState,
    said: Seq<Seq<char>>,
    end: GameState,
    now: Seq<Seq<char>>,
)
    requires
        1 <= n,
        chain(systems, n - 1, start, event, after, mid, said),
        systems[n - 1].reacts(mid, event, after[n - 1], end, now),
        end.valid(),
    ensures
        chain(systems, n, start, event, after, end, said + now),
{
    let lines = said + now;
    assert(lines.subrange(lines.len() - now.len(), lines.len() as int) =~= now);
    assert(lines.subrange(0, lines.len() - now.len()) =~= said);
}

/// A chain of the first `n` systems is a matter of what the first `n`
/// systems become, and of no other.
pub proof fn lemma_chain_frame<S: System>(
    systems: Seq<S>,
    n: int,
    start: GameState,
    event: EngineEvent,
    after1: Seq<S>,
    after2: Seq<S>,
    end: GameState,
    lines: Seq<Seq<char>>,
)
    requires
        chain(systems, n, start, event, after1, end, lines),
        forall|j: int| 0 <= j < n ==> after1[j] == after2[j],
    ensures
        chain(systems, n, start, event, after2, end, lines),
    decreases n,
{
    if n > 0 {
        let (mid, now) = choose|mid: GameState, now: Seq<Seq<char>>| #[trigger]
            systems[n - 1].reacts(mid, event, after1[n - 1], end, now) && end.valid() && now.len()
                <= lines.len() && now == lines.subrange(
                lines.len() - now.len(),
                lines.len() as int,
            ) && chain(
                systems,
                n - 1,
                start,
                event,
                after1,
                mid,
                lines.subrange(0, lines.len() - now.len()),
            );
        lemma_chain_frame(
            systems,
            n - 1,
            start,
            event,
            after1,
            after2,
            mid,
            lines.subrange(0, lines.len() - now.len()),
        );
        assert(systems[n - 1].reacts(mid, event, after2[n - 1], end, now));
    }
}

/// The systems every game starts with.
#[derive(Debug, Clone, Copy, PartialEq, Eq, Structural)]
pub enum CoreSystem {
    Inventory(InventorySystem),
    World(BasicWorldSystem),
}

impl System for CoreSystem {
    fn name(&self) -> (r: &'static str)
        ensures
            r@ == match *self {
                CoreSystem::Inventory(_) => "inventory"@,
                CoreSystem::World(_) => "basic_world"@,
            },
    {
        match self {
            CoreSystem::Inventory(s) => s.name(),
            CoreSystem::World(s) => s.name(),
        }
    }

    open spec fn reacts(
        &self,
        before: GameState,
        event: EngineEvent,
        next: Self,
        after: GameState,
        lines: Seq<Seq<char>>,
    ) -> bool {
        next == *self && match self {
            CoreSystem::Inventory(s) => s.reacts(before, event, *s, after, lines),
            CoreSystem::World(s) => s.reacts(before, event, *s, after, lines),
        }
    }

    fn on_event(&mut self, state: &mut GameState, event: &EngineEvent) -> (out: EngineOutput) {
        match self {
            CoreSystem::Inventory(s) => s.on_event(state, event),
            CoreSystem::World(s) => s.on_event(state, event),
        }
    }
}

/// A game state and the systems that act on it.
pub struct Engine<S: System> {
    pub state: GameState,
    /// The systems, in the order in which they are offered an event.
    pub systems: Vec<S>,
}

impl Engine<CoreSystem> {
    /// An engine on the demonstration world, with the inventory system and
    /// the world system, in that order.
    pub fn new(player_name: &str) -> (r: Self)
        ensures
            r.state.valid(),
            r.state.opening(player_name@),
            r.systems@ == seq![
                CoreSystem::Inventory(InventorySystem),
                CoreSystem::World(BasicWorldSystem),
            ],
    {
        let state = GameState::new(player_name);
        let mut systems: Vec<CoreSystem> = Vec::new();
        systems.push(CoreSystem::Inventory(InventorySystem));
        systems.push(CoreSystem::World(BasicWorldSystem));
        assert(systems@ =~= seq![
            CoreSystem::Inventory(InventorySystem),
            CoreSystem::World(BasicWorldSystem),
        ]);
        Engine { state, systems }
    }
}

impl Engine<CoreSystem> {
    /// An engine on the start of a game of `adventure`, with the inventory
    /// system and the world system, in that order; the validation error if
    /// the document is not sound.
    pub fn from_adventure(player_name: &str, adventure: Adventure) -> (r: Result<
        Self,
        AdventureError,
    >)
        requires
            adventure.wf(),
        ensures
            r is Ok <==> sound(adventure),
            r is Ok ==> r->Ok_0.state.valid() && opens(adventure, player_name@, r->Ok_0.state)
                && r->Ok_0.systems@ == seq![
                CoreSystem::Inventory(InventorySystem),
                CoreSystem::World(BasicWorldSystem),
            ],
            r is Err ==> (r->Err_0 matches AdventureError::Validation(m) && m@ == flaw_message(
                first_flaw(adventure)->0,
            )),
    {
        match adventure.into_game_state(player_name) {
            Ok(state) => {
                let mut systems: Vec<CoreSystem> = Vec::new();
                systems.push(CoreSystem::Inventory(InventorySystem));
                systems.push(CoreSystem::World(BasicWorldSystem));
                assert(systems@ =~= seq![
                    CoreSystem::Inventory(InventorySystem),
                    CoreSystem::World(BasicWorldSystem),
                ]);
                Ok(Engine { state, systems })
            },
            Err(e) => Err(e),
        }
    }
}

impl<S: System> Engine<S> {
    /// An engine on `state` with no system yet.
    pub fn with_state(state: GameState) -> (r: Self)
        ensures
            r.state == state,
            r.systems@.len() == 0,
    {
        Engine { state, systems: Vec::new() }
    }

    /// Adds `system` after the systems already there.
    pub fn add_system(&mut self, system: S)
        ensures
            final(self).state == old(self).state,
            final(self).systems@ == old(self).systems@.push(system),
    {
        self.systems.push(system);
    }

    /// Offers `event` to every system in order and returns their lines, one
    /// system's after the other's. The systems run strictly one after the
    /// other, each on the state that the one before it left.
    pub fn step(&mut self, event: EngineEvent) -> (out: EngineOutput)
        requires
            old(self).state.valid(),
        ensures
            final(self).state.valid(),
            final(self).systems@.len() == old(self).systems@.len(),
            chain(
                old(self).systems@,
                old(self).systems@.len() as int,
                old(self).state,
                event,
                final(self).systems@,
                final(self).state,
                out.text(),
            ),
    {
        let mut out = EngineOutput::new();
        let n = self.systems.len();
        let mut i: usize = 0;
        while i < n
            invariant
                i <= n,
                n == self.systems@.len(),
                n == old(self).systems@.len(),
                self.state.valid(),
                forall|j: int| i <= j < n ==> self.systems@[j] == old(self).systems@[j],
                chain(
                    old(self).systems@,
                    i as int,
                    old(self).state,
                    event,
                    self.systems@,
                    self.state,
                    out.text(),
                ),
            decreases n - i,
        {
            let ghost mid = self.state;
            let ghost said = out.text();
            let ghost before = self.systems@;
            let part = self.systems[i].on_event(&mut self.state, &event);
            let ghost now = part.text();
            if !part.is_empty() {
                out.extend(part);
            } else {
                assert(out.text() =~= said + now);
            }
            proof {
                lemma_chain_frame(
                    old(self).systems@,
                    i as int,
                    old(self).state,
                    event,
                    before,
                    self.systems@,
                    mid,
                    said,
                );
                lemma_chain_step(
                    old(self).systems@,
                    i + 1,
                    old(self).state,
                    event,
                    self.systems@,
                    mid,
                    said,
                    self.state,
                    now,
                );
            }
            i = i + 1;
        }
        out
    }
}

proof fn lemma_chain_valid<S: System>(
    systems: Seq<S>,
    n: int,
    start: GameState,
    event: EngineEvent,
    after: Seq<S>,
    end: GameState,
    lines: Seq<Seq<char>>,
)
    requires
        start.valid(),
        chain(systems, n, start, event, after, end, lines),
    ensures
        end.valid(),
{
}

/// Replaying a step gives the same world and the same lines. Where every
/// system reacts to nothing but what the state and the event say, two
/// steps from states that are the same world model, on events that say the
/// same, end in the same world model with the same lines, and the systems
/// become the same both times.
pub proof fn law_step_replays<S: System>(
    systems: Seq<S>,
    n: int,
    start1: GameState,
    start2: GameState,
    event1: EngineEvent,
    event2: EngineEvent,
    after1: Seq<S>,
    after2: Seq<S>,
    end1: GameState,
    end2: GameState,
    lines1: Seq<Seq<char>>,
    lines2: Seq<Seq<char>>,
)
    requires
        0 <= n <= systems.len(),
        forall|i: int| 0 <= i < n ==> replayable(#[trigger] systems[i]),
        start1.valid(),
        start2.valid(),
        start1@ == start2@,
        event1@ == event2@,
        chain(systems, n, start1, event1, after1, end1, lines1),
        chain(systems, n, start2, event2, after2, end2, lines2),
    ensures
        end1@ == end2@,
        lines1 == lines2,
        forall|i: int| 0 <= i < n ==> after1[i] == after2[i],
    decreases n,
{
    if n > 0 {
        let (mid1, now1) = choose|mid: GameState, now: Seq<Seq<char>>| #[trigger]
            systems[n - 1].reacts(mid, event1, after1[n - 1], end1, now) && end1.valid()
                && now.len() <= lines1.len() && now == lines1.subrange(
                lines1.len() - now.len(),
                lines1.len() as int,
            ) && chain(
                systems,
                n - 1,
                start1,
                event1,
                after1,
                mid,
                lines1.subrange(0, lines1.len() - now.len()),
            );
        let (mid2, now2) = choose|mid: GameState, now: Seq<Seq<char>>| #[trigger]
            systems[n - 1].reacts(mid, event2, after2[n - 1], end2, now) && end2.valid()
                && now.len() <= lines2.len() && now == lines2.subrange(
                lines2.len() - now.len(),
                lines2.len() as int,
            ) && chain(
                systems,
                n - 1,
                start2,
                event2,
                after2,
                mid,
                lines2.subrange(0, lines2.len() - now.len()),
            );
        let said1 = lines1.subrange(0, lines1.len() - now1.len());
        let said2 = lines2.subrange(0, lines2.len() - now2.len());
        law_step_replays(
            systems,
            n - 1,
            start1,
            start2,
            event1,
            event2,
            after1,
            after2,
            mid1,
            mid2,
            said1,
            said2,
        );
        lemma_chain_valid(systems, n - 1, start1, event1, after1, mid1, said1);
        lemma_chain_valid(systems, n - 1, start2, event2, after2, mid2, said2);
        assert(replayable(systems[n - 1]));
        assert(end1@ == end2@ && now1 == now2 && after1[n - 1] == after2[n - 1]);
        assert(lines1 =~= said1 + now1);
        assert(lines2 =~= said2 + now2);
    } else {
        assert(lines1 =~= lines2);
    }
}

/// The systems every game starts with react to what a state and an event
/// say, and to nothing else, and stay as they are.
pub proof fn law_core_systems_replay(system: CoreSystem)
    ensures
        replayable(system),
        forall|b: GameState, e: EngineEvent, n: CoreSystem, a: GameState, l: Seq<Seq<char>>| #[trigger]
            system.reacts(b, e, n, a, l) ==> n == system,
{
    law_inventory_replays();
    law_basic_world_replays();
    assert forall|
        b1: GameState,
        b2: GameState,
        e1: EngineEvent,
        e2: EngineEvent,
        n1: CoreSystem,
        n2: CoreSystem,
        a1: GameState,
        a2: GameState,
        l1: Seq<Seq<char>>,
        l2: Seq<Seq<char>>,
    |
        b1.valid() && b2.valid() && b1@ == b2@ && e1@ == e2@ && a1.valid() && a2.valid()
            && #[trigger] system.reacts(b1, e1, n1, a1, l1) && #[trigger] system.reacts(
            b2,
            e2,
            n2,
            a2,
            l2,
        ) implies a1@ == a2@ && l1 == l2 && n1 == n2 by {
        match system {
            CoreSystem::Inventory(s) => {
                assert(InventorySystem.reacts(b1, e1, InventorySystem, a1, l1));
                assert(InventorySystem.reacts(b2, e2, InventorySystem, a2, l2));
            },
            CoreSystem::World(s) => {
                assert(BasicWorldSystem.reacts(b1, e1, BasicWorldSystem, a1, l1));
                assert(BasicWorldSystem.reacts(b2, e2, BasicWorldSystem, a2, l2));
            },
        }
    }
}

/// A game of the systems every game starts with can be replayed: the same
/// command from the same world gives the same world and the same lines,
/// and leaves the systems as they were.
pub proof fn law_core_step_replays(
    systems: Seq<CoreSystem>,
    start1: GameState,
    start2: GameState,
    event1: EngineEvent,
    event2: EngineEvent,
    after1: Seq<CoreSystem>,
    after2: Seq<CoreSystem>,
    end1: GameState,
    end2: GameState,
    lines1: Seq<Seq<char>>,
    lines2: Seq<Seq<char>>,
)
    requires
        start1.valid(),
        start2.valid(),
        start1@ == start2@,
        event1@ == event2@,
        after1.len() == systems.len(),
        after2.len() == systems.len(),
        chain(systems, systems.len() as int, start1, event1, after1, end1, lines1),
        chain(systems, systems.len() as int, start2, event2, after2, end2, lines2),
    ensures
        end1@ == end2@,
        lines1 == lines2,
        after1 == systems,
        after2 == systems,
{
    assert forall|i: int| 0 <= i < systems.len() implies replayable(#[trigger] systems[i]) by {
        law_core_systems_replay(systems[i]);
    }
    law_step_replays(
        systems,
        systems.len() as int,
        start1,
        start2,
        event1,
        event2,
        after1,
        after2,
        end1,
        end2,
        lines1,
        lines2,
    );
    lemma_core_chain_keeps_systems(
        systems,
        systems.len() as int,
        start1,
        event1,
        after1,
        end1,
        lines1,
    );
    lemma_core_chain_keeps_systems(
        systems,
        systems.len() as int,
        start2,
        event2,
        after2,
        end2,
        lines2,
    );
    assert(after1 =~= systems);
    assert(after2 =~= systems);
}

proof fn lemma_core_chain_keeps_systems(
    systems: Seq<CoreSystem>,
    n: int,
    start: GameState,
    event: EngineEvent,
    after: Seq<CoreSystem>,
    end: GameState,
    lines: Seq<Seq<char>>,
)
    requires
        0 <= n <= systems.len(),
        chain(systems, n, start, event, after, end, lines),
    ensures
        forall|i: int| 0 <= i < n ==> after[i] == systems[i],
    decreases n,
{
    if n > 0 {
        let (mid, now) = choose|mid: GameState, now: Seq<Seq<char>>| #[trigger]
            systems[n - 1].reacts(mid, event, after[n - 1], end, now) && end.valid() && now.len()
                <= lines.len() && now == lines.subrange(
                lines.len() - now.len(),
                lines.len() as int,
            ) && chain(
                systems,
                n - 1,
                start,
                event,
                after,
                mid,
                lines.subrange(0, lines.len() - now.len()),
            );
        lemma_core_chain_keeps_systems(
            systems,
            n - 1,
            start,
            event,
            after,
            mid,
            lines.subrange(0, lines.len() - now.len()),
        );
    }
}

} // verus!
