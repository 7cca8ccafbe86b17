use vstd::prelude::*;

use crate::config::LampMode;

verus! {

/// Why a switch or a persist step could not be carried out.
#[derive(Debug, PartialEq, Eq, Structural)]
pub enum LampError {
    /// The mode name is not one of the configured modes.
    UnknownMode,
    /// No mode is active, so there is no command to show.
    NoActiveMode,
}

/// The rank of `mode` among the first `n` names: the last position that holds it.
pub open spec fn rank_within(names: Seq<Seq<char>>, mode: Seq<char>, n: int) -> Option<int>
    decreases n,
{
    if n <= 0 {
        None
    } else if names[n - 1] == mode {
        Some(n - 1)
    } else {
        rank_within(names, mode, n - 1)
    }
}

/// The rank of `mode`, if it is configured.
pub open spec fn rank_of(names: Seq<Seq<char>>, mode: Seq<char>) -> Option<int> {
    rank_within(names, mode, names.len() as int)
}

/// The highest active rank below `n`.
pub open spec fn top_within(active: Seq<bool>, n: int) -> Option<int>
    decreases n,
{
    if n <= 0 {
        None
    } else if active[n - 1] {
        Some(n - 1)
    } else {
        top_within(active, n - 1)
    }
}

/// The highest active rank, if any mode is active.
pub open spec fn top_rank(active: Seq<bool>) -> Option<int> {
    top_within(active, active.len() as int)
}

/// The active flags after `mode` is switched `on` (or off); unknown modes change nothing.
pub open spec fn switched(names: Seq<Seq<char>>, active: Seq<bool>, mode: Seq<char>, on: bool) -> Seq<
    bool,
> {
    match rank_of(names, mode) {
        Some(p) => active.update(p, on),
        None => active,
    }
}

/// The write that the persist step makes, given what the sink holds: the winning command,
/// unless the sink already holds it.
pub open spec fn write_for(commands: Seq<Seq<char>>, active: Seq<bool>, stored: Option<Seq<char>>) -> Option<
    Seq<char>,
> {
    match top_rank(active) {
        Some(p) => if stored == Some(commands[p]) {
            None
        } else {
            Some(commands[p])
        },
        None => None,
    }
}

/// What the sink holds after `write` (if any) was applied to it.
pub open spec fn after_write(stored: Option<Seq<char>>, write: Option<Seq<char>>) -> Option<Seq<char>> {
    match write {
        Some(w) => Some(w),
        None => stored,
    }
}

/// The sink agrees with the active modes: whenever some mode is active, the sink holds the
/// command of the highest-ranked one.
pub open spec fn agrees(commands: Seq<Seq<char>>, active: Seq<bool>, sink: Option<Seq<char>>) -> bool {
    match top_rank(active) {
        Some(p) => sink == Some(commands[p]),
        None => true,
    }
}

/// Active flags and sink contents after a sequence of switches `(mode, on)`, each followed by
/// its persist step. A switch of an unknown mode fails before it persists anything.
pub open spec fn replay(
    names: Seq<Seq<char>>,
    commands: Seq<Seq<char>>,
    active: Seq<bool>,
    sink: Option<Seq<char>>,
    ops: Seq<(Seq<char>, bool)>,
) -> (Seq<bool>, Option<Seq<char>>)
    decreases ops.len(),
{
    if ops.len() == 0 {
        (active, sink)
    } else {
        let next = switched(names, active, ops[0].0, ops[0].1);
        let stored = if rank_of(names, ops[0].0) is Some {
            after_write(sink, write_for(commands, next, sink))
        } else {
            sink
        };
        replay(names, commands, next, stored, ops.drop_first())
    }
}

pub open spec fn text_of(o: Option<&str>) -> Option<Seq<char>> {
    match o {
        Some(s) => Some(s@),
        None => None,
    }
}

pub open spec fn string_of(o: Option<String>) -> Option<Seq<char>> {
    match o {
        Some(s) => Some(s@),
        None => None,
    }
}

pub open spec fn names_of(modes: Seq<LampMode>) -> Seq<Seq<char>> {
    modes.map_values(|m: LampMode| m.name@)
}

pub open spec fn commands_of(modes: Seq<LampMode>) -> Seq<Seq<char>> {
    modes.map_values(|m: LampMode| m.command@)
}

/// The set of active modes, by rank, and the sink they are written to.
pub struct LampController {
    file: String,
    names: Vec<String>,
    commands: Vec<String>,
    active: Vec<bool>,
}

impl LampController {
    /// Mode names by rank.
    pub closed spec fn names_view(&self) -> Seq<Seq<char>> {
        self.names@.map_values(|s: String| s@)
    }

    /// Command texts by rank.
    pub closed spec fn commands_view(&self) -> Seq<Seq<char>> {
        self.commands@.map_values(|s: String| s@)
    }

    /// For each rank, whether that mode is active.
    pub closed spec fn active_view(&self) -> Seq<bool> {
        self.active@
    }

    pub closed spec fn file_view(&self) -> Seq<char> {
        self.file@
    }

    /// One name, one command and one flag per rank.
    /// One active flag and one command per mode name.
    pub open spec fn sized(&self) -> bool {
        &&& self.active_view().len() == self.names_view().len()
        &&& self.commands_view().len() == self.names_view().len()
    }

    pub closed spec fn wf(&self) -> bool {
        &&& self.names@.len() == self.commands@.len()
        &&& self.names@.len() == self.active@.len()
    }

    /// A controller for `modes`, ranked in the given order, with no mode active.
    pub fn new(file: String, modes: &[LampMode]) -> (r: Self)
        ensures
            r.wf(),
            r.sized(),
            r.file_view() == file@,
            r.names_view() == names_of(modes@),
            r.commands_view() == commands_of(modes@),
            r.active_view() == Seq::new(modes@.len(), |i: int| false),
    {
        let mut names: Vec<String> = Vec::new();
        let mut commands: Vec<String> = Vec::new();
        let mut active: Vec<bool> = Vec::new();
        let mut i: usize = 0;
        while i < modes.len()
            invariant
                i <= modes@.len(),
                names@.len() == i,
                commands@.len() == i,
                active@ =~= Seq::new(i as nat, |k: int| false),
                forall|k: int| 0 <= k < i ==> names@[k]@ == modes@[k].name@,
                forall|k: int| 0 <= k < i ==> commands@[k]@ == modes@[k].command@,
            decreases modes@.len() - i,
        {
            names.push(modes[i].name.clone());
            commands.push(modes[i].command.clone());
            active.push(false);
            i = i + 1;
        }
        assert(names@.map_values(|s: String| s@) =~= names_of(modes@));
        assert(commands@.map_values(|s: String| s@) =~= commands_of(modes@));
        LampController { file, names, commands, active }
    }

    /// The file the winning command is written to.
    pub fn file(&self) -> (r: &String)
        ensures
            r@ == self.file_view(),
    {
        &self.file
    }

    /// The rank of `mode`.
    fn priority(&self, mode: &str) -> (r: Result<usize, LampError>)
        requires
            self.wf(),
        ensures
            r matches Ok(q) ==> rank_of(self.names_view(), mode@) == Some(q as int) && q
                < self.active_view().len(),
            r is Err ==> rank_of(self.names_view(), mode@) is None && r == Err::<usize, LampError>(
                LampError::UnknownMode,
            ),
    {
        let key = mode.to_owned();
        let mut i: usize = self.names.len();
        while i > 0
            invariant
                self.wf(),
                i <= self.names@.len(),
                key@ == mode@,
                rank_of(self.names_view(), mode@) == rank_within(self.names_view(), mode@, i as int),
            decreases i,
        {
            if self.names[i - 1] == key {
                return Ok(i - 1);
            }
            i = i - 1;
        }
        Err(LampError::UnknownMode)
    }

    /// Switches `mode` on. Nothing changes when the mode is unknown.
    pub fn enable(&mut self, mode: &str) -> (r: Result<(), LampError>)
        requires
            old(self).wf(),
        ensures
            final(self).wf(),
            final(self).sized(),
            final(self).file_view() == old(self).file_view(),
            final(self).names_view() == old(self).names_view(),
            final(self).commands_view() == old(self).commands_view(),
            final(self).active_view() == switched(
                old(self).names_view(),
                old(self).active_view(),
                mode@,
                true,
            ),
            r is Ok <==> rank_of(old(self).names_view(), mode@) is Some,
            r is Err ==> r == Err::<(), LampError>(LampError::UnknownMode),
    {
        self.switch(mode, true)
    }

    /// Switches `mode` off. Nothing changes when the mode is unknown.
    pub fn disable(&mut self, mode: &str) -> (r: Result<(), LampError>)
        requires
            old(self).wf(),
        ensures
            final(self).wf(),
            final(self).sized(),
            final(self).file_view() == old(self).file_view(),
            final(self).names_view() == old(self).names_view(),
            final(self).commands_view() == old(self).commands_view(),
            final(self).active_view() == switched(
                old(self).names_view(),
                old(self).active_view(),
                mode@,
                false,
            ),
            r is Ok <==> rank_of(old(self).names_view(), mode@) is Some,
            r is Err ==> r == Err::<(), LampError>(LampError::UnknownMode),
    {
        self.switch(mode, false)
    }

    fn switch(&mut self, mode: &str, on: bool) -> (r: Result<(), LampError>)
        requires
            old(self).wf(),
        ensures
            final(self).wf(),
            final(self).sized(),
            final(self).file_view() == old(self).file_view(),
            final(self).names_view() == old(self).names_view(),
            final(self).commands_view() == old(self).commands_view(),
            final(self).active_view() == switched(
                old(self).names_view(),
                old(self).active_view(),
                mode@,
                on,
            ),
            r is Ok <==> rank_of(old(self).names_view(), mode@) is Some,
            r is Err ==> r == Err::<(), LampError>(LampError::UnknownMode),
    {
        match self.priority(mode) {
            Ok(p) => {
                self.active.set(p, on);
                assert(self.names_view() == old(self).names_view());
                assert(self.active_view() == old(self).active_view().update(p as int, on));
                Ok(())
            },
            Err(e) => Err(e),
        }
    }

    /// The highest active rank.
    fn top_priority(&self) -> (r: Option<usize>)
        requires
            self.wf(),
        ensures
            r matches Some(q) ==> top_rank(self.active_view()) == Some(q as int) && q
                < self.active_view().len(),
            r is None ==> top_rank(self.active_view()) is None,
    {
        let mut i: usize = self.active.len();
        while i > 0
            invariant
                i <= self.active@.len(),
                top_rank(self.active_view()) == top_within(self.active_view(), i as int),
            decreases i,
        {
            if self.active[i - 1] {
                return Some(i - 1);
            }
            i = i - 1;
        }
        None
    }

    /// The command of the highest-ranked active mode.
    pub fn top_command(&self) -> (r: Result<String, LampError>)
        requires
            self.wf(),
        ensures
            match top_rank(self.active_view()) {
                Some(p) => r matches Ok(c) && c@ == self.commands_view()[p],
                None => r == Err::<String, LampError>(LampError::NoActiveMode),
            },
    {
        match self.top_priority() {
            Some(p) => {
                let c = self.commands[p].clone();
                assert(c@ == self.commands_view()[p as int]);
                Ok(c)
            },
            None => Err(LampError::NoActiveMode),
        }
    }

    /// The persist step: given what the sink holds now (`None` when there is no sink file
    /// yet), the command to write to it, or `None` when it already holds the winning one.
    pub fn update_lamp(&self, stored: Option<&str>) -> (r: Result<Option<String>, LampError>)
        requires
            self.wf(),
        ensures
            r is Err <==> top_rank(self.active_view()) is None,
            r is Err ==> r == Err::<Option<String>, LampError>(LampError::NoActiveMode),
            r matches Ok(w) ==> string_of(w) == write_for(
                self.commands_view(),
                self.active_view(),
                text_of(stored),
            ),
    {
        let command = match self.top_command() {
            Ok(c) => c,
            Err(e) => return Err(e),
        };
        match stored {
            Some(s) => {
                let current = s.to_owned();
                if current == command {
                    Ok(None)
                } else {
                    Ok(Some(command))
                }
            },
            None => Ok(Some(command)),
        }
    }
}

/// A rank lies among the names it was looked up in.
pub proof fn lemma_rank_bounds(names: Seq<Seq<char>>, mode: Seq<char>, n: int)
    ensures
        rank_within(names, mode, n) matches Some(p) ==> 0 <= p < n,
    decreases n,
{
    if n > 0 {
        lemma_rank_bounds(names, mode, n - 1);
    }
}

/// A switch followed by its persist step leaves the sink in agreement with the active modes,
/// whatever the sink held before: the winning command when some mode is active, and the
/// earlier contents when none is.
pub proof fn lemma_persist_step_agrees(
    names: Seq<Seq<char>>,
    commands: Seq<Seq<char>>,
    active: Seq<bool>,
    sink: Option<Seq<char>>,
)
    ensures
        agrees(commands, active, after_write(sink, write_for(commands, active, sink))),
        top_rank(active) is None ==> after_write(sink, write_for(commands, active, sink)) == sink,
{
}

/// For every sequence of switches, starting from a sink that agrees with the active modes
/// (as any sink does while no mode is active), the sink afterwards holds the command of the
/// highest-ranked mode that is still active.
pub proof fn lemma_sink_follows_switches(
    names: Seq<Seq<char>>,
    commands: Seq<Seq<char>>,
    active: Seq<bool>,
    sink: Option<Seq<char>>,
    ops: Seq<(Seq<char>, bool)>,
)
    requires
        agrees(commands, active, sink),
    ensures
        agrees(commands, replay(names, commands, active, sink, ops).0, replay(names, commands, active, sink, ops).1),
    decreases ops.len(),
{
    if ops.len() > 0 {
        let next = switched(names, active, ops[0].0, ops[0].1);
        let stored = if rank_of(names, ops[0].0) is Some {
            after_write(sink, write_for(commands, next, sink))
        } else {
            sink
        };
        lemma_persist_step_agrees(names, commands, next, sink);
        lemma_sink_follows_switches(names, commands, next, stored, ops.drop_first());
    }
}

/// Switching a mode the same way twice in a row has the effect of switching it once: the
/// same active modes, the same sink contents, and the second persist step writes nothing.
pub proof fn lemma_switch_twice(
    names: Seq<Seq<char>>,
    commands: Seq<Seq<char>>,
    active: Seq<bool>,
    sink: Option<Seq<char>>,
    mode: Seq<char>,
    on: bool,
)
    requires
        names.len() == active.len(),
    ensures
        switched(names, switched(names, active, mode, on), mode, on) == switched(
            names,
            active,
            mode,
            on,
        ),
        replay(names, commands, active, sink, seq![(mode, on), (mode, on)]) == replay(
            names,
            commands,
            active,
            sink,
            seq![(mode, on)],
        ),
        ({
            let once = replay(names, commands, active, sink, seq![(mode, on)]);
            rank_of(names, mode) is Some ==> write_for(commands, once.0, once.1) is None
        }),
{
    reveal_with_fuel(replay, 3);
    lemma_rank_bounds(names, mode, names.len() as int);
    let once = switched(names, active, mode, on);
    if let Some(p) = rank_of(names, mode) {
        assert(once.update(p, on) =~= once);
    }
    let ops2 = seq![(mode, on), (mode, on)];
    let ops1 = seq![(mode, on)];
    assert(ops2.drop_first() =~= ops1);
    assert(ops1.drop_first() =~= Seq::<(Seq<char>, bool)>::empty());
    lemma_persist_step_agrees(names, commands, once, sink);
    let stored = after_write(sink, write_for(commands, once, sink));
    if rank_of(names, mode) is Some {
        lemma_persist_step_agrees(names, commands, once, stored);
    }
}

/// With three distinct modes ranked 0, 1 and 2 all active, switching off the top one reveals
/// the middle one, switching that off reveals the lowest, and switching the top one on makes it
/// win again from any state.
pub proof fn lemma_priority_order(names: Seq<Seq<char>>, active: Seq<bool>)
    requires
        names.len() == 3,
        names[0] != names[1],
        names[0] != names[2],
        names[1] != names[2],
        active.len() == 3,
    ensures
        ({
            let all = seq![true, true, true];
            let without_top = switched(names, all, names[2], false);
            let only_low = switched(names, without_top, names[1], false);
            &&& top_rank(all) == Some(2int)
            &&& top_rank(without_top) == Some(1int)
            &&& top_rank(only_low) == Some(0int)
        }),
        top_rank(switched(names, active, names[2], true)) == Some(2int),
{
    reveal_with_fuel(rank_within, 4);
    reveal_with_fuel(top_within, 4);
    let all = seq![true, true, true];
    assert(rank_of(names, names[2]) == Some(2int));
    assert(rank_of(names, names[1]) == Some(1int));
    let without_top = switched(names, all, names[2], false);
    assert(without_top =~= seq![true, true, false]);
    let only_low = switched(names, without_top, names[1], false);
    assert(only_low =~= seq![true, false, false]);
    assert(switched(names, active, names[2], true)[2]);
}

/// When the sink already holds the command that wins, the persist step writes nothing.
pub proof fn lemma_no_write_when_current(
    commands: Seq<Seq<char>>,
    active: Seq<bool>,
    stored: Option<Seq<char>>,
)
    requires
        agrees(commands, active, stored),
    ensures
        write_for(commands, active, stored) is None,
{
}

} // verus!
