//! Operator commands and the view state they drive.
use vstd::prelude::*;
use vstd::string::*;

verus! {

/// The column by which the request table is ordered.
#[derive(Clone, Copy, Debug, PartialEq, Eq, Structural)]
pub enum SortBy {
    Count,
    Path,
    StatusCode,
    IP,
    UserAgent,
}

/// A directive of the operator.
#[derive(Clone, Copy, Debug, PartialEq, Eq, Structural)]
pub enum Command {
    Sort(SortBy),
    IncreaseLimit,
    DecreaseLimit,
    Quit,
    Noop,
}

/// Number of rows shown before the operator changes it.
pub const DEFAULT_LIMIT: usize = 20;

/// Amount by which one command changes the number of rows.
pub const LIMIT_STEP: usize = 5;

/// Fewest rows that the table can be reduced to.
pub const LIMIT_FLOOR: usize = 5;

/// The command that a key stands for; every key without a meaning is `Noop`.
pub open spec fn command_of(key: char) -> Command {
    if key == 'q' {
        Command::Quit
    } else if key == 's' {
        Command::Sort(SortBy::StatusCode)
    } else if key == 'p' {
        Command::Sort(SortBy::Path)
    } else if key == 'c' {
        Command::Sort(SortBy::Count)
    } else if key == 'i' {
        Command::Sort(SortBy::IP)
    } else if key == 'u' {
        Command::Sort(SortBy::UserAgent)
    } else if key == '+' {
        Command::IncreaseLimit
    } else if key == '-' {
        Command::DecreaseLimit
    } else {
        Command::Noop
    }
}

/// The command that a line of control input stands for: that of its first
/// character. An empty line stands for none.
pub open spec fn command_of_line(line: Seq<char>) -> Option<Command> {
    if line.len() == 0 {
        None
    } else {
        Some(command_of(line[0]))
    }
}

/// Maps a key to its command.
pub fn command_for(key: char) -> (command: Command)
    ensures
        command == command_of(key),
{
    if key == 'q' {
        Command::Quit
    } else if key == 's' {
        Command::Sort(SortBy::StatusCode)
    } else if key == 'p' {
        Command::Sort(SortBy::Path)
    } else if key == 'c' {
        Command::Sort(SortBy::Count)
    } else if key == 'i' {
        Command::Sort(SortBy::IP)
    } else if key == 'u' {
        Command::Sort(SortBy::UserAgent)
    } else if key == '+' {
        Command::IncreaseLimit
    } else if key == '-' {
        Command::DecreaseLimit
    } else {
        Command::Noop
    }
}

/// Maps a line of control input to its command, looking at nothing but the
/// first character.
pub fn command_for_line(line: &str) -> (command: Option<Command>)
    ensures
        command == command_of_line(line@),
{
    if line.is_empty() {
        None
    } else {
        Some(command_for(line.get_char(0)))
    }
}

impl Command {
    /// Whether the control input is read no further once this command was
    /// handed on: only `Quit` ends it.
    pub fn ends_input(&self) -> (ends: bool)
        ensures
            ends == (*self == Command::Quit),
    {
        match self {
            Command::Quit => true,
            _ => false,
        }
    }
}

/// What the operator has chosen: the sort column and the number of rows.
pub struct ViewState {
    pub sort_by: SortBy,
    pub display_limit: nat,
}

impl ViewState {
    /// The choice in force before any command.
    pub open spec fn initial() -> ViewState {
        ViewState { sort_by: SortBy::Count, display_limit: DEFAULT_LIMIT as nat }
    }

    /// Every limit reached from the initial one is a multiple of the step
    /// and not under the floor.
    pub open spec fn wf(self) -> bool {
        &&& self.display_limit >= LIMIT_FLOOR
        &&& self.display_limit % (LIMIT_STEP as nat) == 0
    }

    /// The choice after one command.
    pub open spec fn after(self, command: Command) -> ViewState {
        match command {
            Command::Sort(by) => ViewState { sort_by: by, ..self },
            Command::IncreaseLimit => ViewState {
                display_limit: self.display_limit + LIMIT_STEP as nat,
                ..self
            },
            Command::DecreaseLimit => if self.display_limit > LIMIT_FLOOR {
                ViewState { display_limit: (self.display_limit - LIMIT_STEP) as nat, ..self }
            } else {
                self
            },
            Command::Quit | Command::Noop => self,
        }
    }

    /// The choice after one tick, in which at most one command was pending.
    pub open spec fn after_poll(self, pending: Option<Command>) -> ViewState {
        match pending {
            Some(command) => self.after(command),
            None => self,
        }
    }

    /// The choice after a run of commands, applied first to last.
    pub open spec fn after_all(self, commands: Seq<Command>) -> ViewState
        decreases commands.len(),
    {
        if commands.len() == 0 {
            self
        } else {
            self.after_all(commands.drop_last()).after(commands.last())
        }
    }
}

/// A command keeps a well-formed choice well-formed.
pub proof fn lemma_after_keeps_wf(state: ViewState, command: Command)
    requires
        state.wf(),
    ensures
        state.after(command).wf(),
{
}

/// Whatever commands arrive, the number of rows never falls under the floor.
pub proof fn lemma_limit_never_under_floor(commands: Seq<Command>)
    ensures
        ViewState::initial().after_all(commands).wf(),
        ViewState::initial().after_all(commands).display_limit >= LIMIT_FLOOR,
    decreases commands.len(),
{
    if commands.len() > 0 {
        lemma_limit_never_under_floor(commands.drop_last());
        lemma_after_keeps_wf(
            ViewState::initial().after_all(commands.drop_last()),
            commands.last(),
        );
    }
}

/// Commands that only raise the limit add one step each: after `n` of them
/// a limit `l` is `l + n * step`.
pub proof fn lemma_increase_adds_steps(state: ViewState, n: nat)
    ensures
        state.after_all(Seq::new(n, |i: int| Command::IncreaseLimit)).sort_by == state.sort_by,
        state.after_all(Seq::new(n, |i: int| Command::IncreaseLimit)).display_limit
            == state.display_limit + n * LIMIT_STEP,
    decreases n,
{
    let all = Seq::new(n, |i: int| Command::IncreaseLimit);
    if n > 0 {
        let fewer = Seq::new((n - 1) as nat, |i: int| Command::IncreaseLimit);
        assert(all.drop_last() =~= fewer);
        lemma_increase_adds_steps(state, (n - 1) as nat);
    }
}

/// Commands that only lower the limit bring it to the floor and leave it
/// there: after `n` of them a well-formed limit `l` is the larger of the
/// floor and `l - n * step`.
pub proof fn lemma_decrease_stops_at_floor(state: ViewState, n: nat)
    requires
        state.wf(),
    ensures
        state.after_all(Seq::new(n, |i: int| Command::DecreaseLimit)).sort_by == state.sort_by,
        state.after_all(Seq::new(n, |i: int| Command::DecreaseLimit)).display_limit == (
        if state.display_limit - n * LIMIT_STEP >= LIMIT_FLOOR {
            state.display_limit - n * LIMIT_STEP
        } else {
            LIMIT_FLOOR as int
        }),
    decreases n,
{
    let all = Seq::new(n, |i: int| Command::DecreaseLimit);
    if n > 0 {
        let fewer = Seq::new((n - 1) as nat, |i: int| Command::DecreaseLimit);
        assert(all.drop_last() =~= fewer);
        lemma_decrease_stops_at_floor(state, (n - 1) as nat);
        lemma_after_all_keeps_wf(state, fewer);
    }
}

/// A run of commands keeps a well-formed choice well-formed.
pub proof fn lemma_after_all_keeps_wf(state: ViewState, commands: Seq<Command>)
    requires
        state.wf(),
    ensures
        state.after_all(commands).wf(),
    decreases commands.len(),
{
    if commands.len() > 0 {
        lemma_after_all_keeps_wf(state, commands.drop_last());
        lemma_after_keeps_wf(state.after_all(commands.drop_last()), commands.last());
    }
}

/// The interactive state of the dashboard.
pub struct Httop {
    sort_by: SortBy,
    display_limit: usize,
}

impl View for Httop {
    type V = ViewState;

    closed spec fn view(&self) -> ViewState {
        ViewState { sort_by: self.sort_by, display_limit: self.display_limit as nat }
    }
}

impl Httop {
    #[verifier::type_invariant]
    spec fn limit_is_stepped(&self) -> bool {
        self@.wf()
    }

    /// The state at start: ordered by count, with the default number of rows.
    pub fn new() -> (app: Httop)
        ensures
            app@ == ViewState::initial(),
    {
        Httop { sort_by: SortBy::Count, display_limit: DEFAULT_LIMIT }
    }

    /// The column by which the table is ordered.
    pub fn sort_by(&self) -> (by: SortBy)
        ensures
            by == self@.sort_by,
    {
        self.sort_by
    }

    /// The number of rows shown, which is never under the floor.
    pub fn display_limit(&self) -> (limit: usize)
        ensures
            limit == self@.display_limit,
            limit >= LIMIT_FLOOR,
            self@.wf(),
    {
        proof {
            use_type_invariant(self);
        }
        self.display_limit
    }

    /// Whether `apply` can take `pending`: raising the limit needs room for
    /// one more step in a `usize`.
    pub fn accepts(&self, pending: &Option<Command>) -> (ok: bool)
        ensures
            ok == (*pending == Some(Command::IncreaseLimit) ==> self@.display_limit + LIMIT_STEP
                <= usize::MAX),
    {
        match pending {
            Some(Command::IncreaseLimit) => self.display_limit <= usize::MAX - LIMIT_STEP,
            _ => true,
        }
    }

    /// Takes the first step of a tick: applies the one command that was
    /// pending, if any, and tells whether the dashboard keeps running. Only
    /// `Quit` stops it.
    pub fn apply(&mut self, pending: Option<Command>) -> (running: bool)
        requires
            pending == Some(Command::IncreaseLimit) ==> old(self)@.display_limit + LIMIT_STEP
                <= usize::MAX,
        ensures
            final(self)@ == old(self)@.after_poll(pending),
            running == (pending != Some(Command::Quit)),
    {
        proof {
            use_type_invariant(&*self);
        }
        match pending {
            Some(Command::Quit) => false,
            Some(Command::Sort(by)) => {
                self.sort_by = by;
                true
            },
            Some(Command::IncreaseLimit) => {
                self.display_limit = self.display_limit + LIMIT_STEP;
                true
            },
            Some(Command::DecreaseLimit) => {
                if self.display_limit > LIMIT_FLOOR {
                    self.display_limit = self.display_limit - LIMIT_STEP;
                }
                true
            },
            Some(Command::Noop) | None => true,
        }
    }
}

} // verus!
