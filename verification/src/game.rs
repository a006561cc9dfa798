//! The states that a game is in, one on top of the other: exploring at the
//! bottom, and on it whatever the player has entered since.

use vstd::prelude::*;

verus! {

/// A state of the game: exploring, a battle, and so on. `P` is the player
/// as the game knows it.
pub trait GameState<P> {
    /// Takes a command of the player and says whether the state is ready
    /// to be left.
    fn step(&mut self, cmd: &str, player: &P) -> bool;

    /// Whether the state has come to an end.
    fn is_done(&self) -> bool;
}

/// Exploring: the zone of the level that the player is in.
#[derive(Debug, Clone, Copy, PartialEq, Eq)]
pub struct ExploreState {
    /// The column and the row of the zone.
    pub loc: (u8, u8),
}

impl ExploreState {
    /// Exploring begins in the middle of the largest level there can be.
    pub fn new() -> (state: ExploreState)
        ensures
            state.loc == (128u8, 128u8),
    {
        ExploreState { loc: (128, 128) }
    }

    /// Whether exploring has come to an end: it never has.
    pub fn ended(&self) -> (r: bool)
        ensures
            !r,
    {
        false
    }
}

impl<P> GameState<P> for ExploreState {
    /// No command moves the player yet, and none ends exploring.
    fn step(&mut self, cmd: &str, player: &P) -> (r: bool)
        ensures
            !r,
            *final(self) == *old(self),
    {
        false
    }

    /// Exploring never comes to an end.
    fn is_done(&self) -> (r: bool)
        returns
            false,
    {
        self.ended()
    }
}

/// Whether the state on top may be taken off the stack, given what it says
/// of itself: only a state that is there and has come to an end may.
pub fn may_pop(top_done: Option<bool>) -> (r: bool)
    ensures
        r == (top_done == Some(true)),
{
    match top_done {
        Some(done) => done,
        None => false,
    }
}

/// Why the state on top of the stack was not taken off.
#[derive(Debug, Clone, Copy, PartialEq, Eq, Structural)]
pub enum PopError {
    /// The state on top has not come to an end, or there is no state.
    StillRunning,
}

/// The states of a game, the current one on top.
pub struct StateStack<S> {
    stack: Vec<S>,
}

impl<S> View for StateStack<S> {
    type V = Seq<S>;

    closed spec fn view(&self) -> Seq<S> {
        self.stack@
    }
}

impl<S> StateStack<S> {
    /// A stack that holds the state in which the game begins.
    pub fn new(first: S) -> (stack: StateStack<S>)
        ensures
            stack@ == seq![first],
    {
        let mut stack: Vec<S> = Vec::with_capacity(3);
        stack.push(first);
        StateStack { stack }
    }

    /// Takes the state on top off the stack, if there is one.
    pub fn pop(&mut self)
        ensures
            final(self)@ == if old(self)@.len() > 0 {
                old(self)@.drop_last()
            } else {
                old(self)@
            },
    {
        let _ = self.stack.pop();
    }

    /// Puts a state on top of the stack.
    pub fn push(&mut self, state: S)
        ensures
            final(self)@ == old(self)@.push(state),
    {
        self.stack.push(state);
    }

    /// Takes the state on top off the stack if that state says that it
    /// has come to an end, and refuses otherwise: the state on top is asked
    /// with `is_done`, and the call succeeds exactly when there is such a
    /// state and its answer is `true`.
    pub fn try_pop<P>(&mut self) -> (r: Result<(), PopError>) where S: GameState<P>
        ensures
            old(self)@.len() == 0 ==> r is Err,
            old(self)@.len() > 0 ==> call_ensures(
                <S as GameState<P>>::is_done,
                (&old(self)@.last(),),
                r is Ok,
            ),
            r is Ok ==> final(self)@ == old(self)@.drop_last(),
            r is Err ==> final(self)@ == old(self)@,
    {
        let n = self.stack.len();
        let top_done = if n > 0 {
            Some(self.stack[n - 1].is_done())
        } else {
            None
        };
        if may_pop(top_done) {
            self.pop();
            Ok(())
        } else {
            Err(PopError::StillRunning)
        }
    }
}

impl<S> StateStack<S> {
    /// Hands a command of the player to the state on top, and says whether
    /// that state is ready to be left: the result is what `step` of the
    /// state on top gives, and that state is left as `step` leaves it. The
    /// states below stay as they are. Without a state nothing happens, and
    /// nothing is ready to be left.
    pub fn step<P>(&mut self, cmd: &str, player: &P) -> (r: bool) where S: GameState<P>
        ensures
            final(self)@.len() == old(self)@.len(),
            old(self)@.len() == 0 ==> !r && final(self)@ == old(self)@,
            old(self)@.len() > 0 ==> final(self)@.drop_last() == old(self)@.drop_last(),
            old(self)@.len() > 0 ==> exists|top: &mut S|
                *top == old(self)@.last() && *final(top) == final(self)@.last() && #[trigger] call_ensures(
                    <S as GameState<P>>::step,
                    (top, cmd, player),
                    r,
                ),
    {
        let n = self.stack.len();
        if n > 0 {
            self.stack[n - 1].step(cmd, player)
        } else {
            false
        }
    }

    /// One turn of the game: the state on top takes the command, and is
    /// taken off the stack when its `step` says that it is ready to be
    /// left; otherwise it stays on top as `step` leaves it. The states
    /// below stay as they are. Without a state nothing happens.
    pub fn advance<P>(&mut self, cmd: &str, player: &P) -> (left: bool) where S: GameState<P>
        ensures
            old(self)@.len() == 0 ==> !left && final(self)@ == old(self)@,
            old(self)@.len() > 0 ==> exists|top: &mut S|
                *top == old(self)@.last() && #[trigger] call_ensures(
                    <S as GameState<P>>::step,
                    (top, cmd, player),
                    left,
                ) && final(self)@ == if left {
                    old(self)@.drop_last()
                } else {
                    old(self)@.drop_last().push(*final(top))
                },
    {
        if self.step(cmd, player) {
            self.pop();
            true
        } else {
            false
        }
    }
}

} // verus!
