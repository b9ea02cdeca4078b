//! The slide show's decisions: where a step leads, which transitions play, what
//! the presenter's view shows.
use vstd::prelude::*;
use crate::model::document::{Transition, TransitionType};
use crate::text::{decimal, push_char, push_decimal};

verus! {

/// The slide that a step leads to from `current` of `len` slides: forward
/// (`delta` > 0) stops at the last slide, backward stops at the first.
pub open spec fn step_target(current: int, delta: int, len: int) -> int {
    let last = if len > 0 { len - 1 } else { 0 };
    if delta > 0 {
        if current + 1 < last { current + 1 } else { last }
    } else if current > 0 {
        current - 1
    } else {
        0
    }
}

pub fn next_slide(current: usize, delta: isize, len: usize) -> (r: usize)
    requires
        current < usize::MAX,
    ensures
        r == step_target(current as int, delta as int, len as int),
        current < len ==> r < len,
        delta > 0 && current + 1 < len ==> r == current + 1,
        delta <= 0 && current > 0 ==> r == current - 1,
{
    let last = if len > 0 { len - 1 } else { 0 };
    if delta > 0 {
        if current + 1 < last { current + 1 } else { last }
    } else if current > 0 {
        current - 1
    } else {
        0
    }
}

/// A step moves by one slide: forward from any slide but the last shows the next
/// one, and from the last it stays; back from any slide but the first shows the one
/// before, and from the first it stays. So a step forward and a step back return to
/// the slide where they began, where it is not the last.
pub proof fn lemma_step_moves_by_one(current: int, delta: int, len: int)
    requires
        0 <= current < len,
    ensures
        delta > 0 && current + 1 < len ==> step_target(current, delta, len) == current + 1,
        delta > 0 && current + 1 == len ==> step_target(current, delta, len) == current,
        delta <= 0 && current > 0 ==> step_target(current, delta, len) == current - 1,
        delta <= 0 && current == 0 ==> step_target(current, delta, len) == 0,
        0 <= step_target(current, delta, len) < len,
        current + 1 < len ==> step_target(step_target(current, 1, len), -1, len) == current,
{
}

/// Whether a slide appears at once, with no animation: no transition, or one of no length.
pub fn shows_at_once(transition: &Transition) -> (r: bool)
    ensures
        r == (transition.kind == TransitionType::Cut || transition.duration_ms == 0),
{
    transition.kind == TransitionType::Cut || transition.duration_ms == 0
}

/// The slide that the presenter's second preview shows: the next one, or the
/// current one when it is the last.
pub fn following_slide(current: usize, len: usize) -> (r: usize)
    requires
        len > 0,
        current < usize::MAX,
    ensures
        r == (if current + 1 < len { current + 1 } else { len - 1 }),
        current < len ==> r == step_target(current as int, 1, len as int),
{
    if current + 1 < len { current + 1 } else { len - 1 }
}

/// `n` in decimal, with a leading zero below 10.
pub open spec fn two_digits(n: nat) -> Seq<char> {
    if n < 10 {
        seq!['0'] + decimal(n)
    } else {
        decimal(n)
    }
}

/// The presenter's timer: minutes and seconds, each at least two digits.
pub open spec fn timer_text(seconds: nat) -> Seq<char> {
    two_digits(seconds / 60) + seq![':'] + two_digits(seconds % 60)
}

fn push_two_digits(s: &mut String, n: u64)
    ensures
        final(s)@ == old(s)@ + two_digits(n as nat),
{
    if n < 10 {
        push_char(s, '0');
    }
    push_decimal(s, n);
    assert(final(s)@ =~= old(s)@ + two_digits(n as nat));
}

pub fn timer_label(seconds: u64) -> (r: String)
    ensures
        r@ == timer_text(seconds as nat),
{
    let mut r = String::new();
    push_two_digits(&mut r, seconds / 60);
    push_char(&mut r, ':');
    push_two_digits(&mut r, seconds % 60);
    assert(r@ =~= timer_text(seconds as nat));
    r
}

// ---------------------------------------------------------------------------
// Keys during the show
// ---------------------------------------------------------------------------

/// The key value of Escape.
pub const KEY_ESCAPE: u32 = 0xff1b;
/// The key value of the letter b.
pub const KEY_LOWER_B: u32 = 0x62;
/// The key value of the letter B.
pub const KEY_UPPER_B: u32 = 0x42;
/// The key value of the space bar.
pub const KEY_SPACE: u32 = 0x20;
/// The key value of the left arrow.
pub const KEY_LEFT: u32 = 0xff51;
/// The key value of the up arrow.
pub const KEY_UP: u32 = 0xff52;
/// The key value of the right arrow.
pub const KEY_RIGHT: u32 = 0xff53;
/// The key value of the down arrow.
pub const KEY_DOWN: u32 = 0xff54;
/// The key value of Page Up.
pub const KEY_PAGE_UP: u32 = 0xff55;
/// The key value of Page Down.
pub const KEY_PAGE_DOWN: u32 = 0xff56;

/// What a key press does during the show.
#[derive(Debug, Clone, Copy, PartialEq, Eq, Structural)]
pub enum ShowAction {
    /// Ends the show.
    Close,
    /// Blanks the screen, or shows the slide again.
    ToggleBlack,
    /// Goes to the next slide.
    Forward,
    /// Goes to the previous slide.
    Back,
    /// Leaves the key to the rest of the window.
    Ignore,
}

/// The action of the key with key value `keyval`.
pub open spec fn action_of(keyval: u32) -> ShowAction {
    if keyval == KEY_ESCAPE {
        ShowAction::Close
    } else if keyval == KEY_LOWER_B || keyval == KEY_UPPER_B {
        ShowAction::ToggleBlack
    } else if keyval == KEY_RIGHT || keyval == KEY_DOWN || keyval == KEY_SPACE || keyval
        == KEY_PAGE_DOWN {
        ShowAction::Forward
    } else if keyval == KEY_LEFT || keyval == KEY_UP || keyval == KEY_PAGE_UP {
        ShowAction::Back
    } else {
        ShowAction::Ignore
    }
}

pub fn key_action(keyval: u32) -> (r: ShowAction)
    ensures
        r == action_of(keyval),
{
    if keyval == KEY_ESCAPE {
        ShowAction::Close
    } else if keyval == KEY_LOWER_B || keyval == KEY_UPPER_B {
        ShowAction::ToggleBlack
    } else if keyval == KEY_RIGHT || keyval == KEY_DOWN || keyval == KEY_SPACE || keyval
        == KEY_PAGE_DOWN {
        ShowAction::Forward
    } else if keyval == KEY_LEFT || keyval == KEY_UP || keyval == KEY_PAGE_UP {
        ShowAction::Back
    } else {
        ShowAction::Ignore
    }
}

// ---------------------------------------------------------------------------
// The presenter's timer
// ---------------------------------------------------------------------------

/// The presenter's stopwatch: whether it runs, and the seconds it has counted.
#[derive(Debug, Clone, Copy, PartialEq, Eq, Structural)]
pub struct PresenterTimer {
    pub running: bool,
    pub elapsed: u64,
}

impl PresenterTimer {
    /// A stopwatch that runs from zero.
    pub fn new() -> (r: Self)
        ensures
            r.running,
            r.elapsed == 0,
    {
        PresenterTimer { running: true, elapsed: 0 }
    }

    /// One second has passed: a running stopwatch counts it.
    pub fn tick(&mut self)
        requires
            old(self).elapsed < u64::MAX,
        ensures
            final(self).running == old(self).running,
            final(self).elapsed == (if old(self).running {
                old(self).elapsed + 1
            } else {
                old(self).elapsed as int
            }),
    {
        if self.running {
            self.elapsed = self.elapsed + 1;
        }
    }

    /// Pauses a running stopwatch or resumes a paused one, and gives the label of
    /// the button that does it next.
    pub fn toggle(&mut self) -> (label: &'static str)
        ensures
            final(self).running == !old(self).running,
            final(self).elapsed == old(self).elapsed,
            label@ == (if final(self).running { "Pausar"@ } else { "Continuar"@ }),
    {
        self.running = !self.running;
        if self.running {
            "Pausar"
        } else {
            "Continuar"
        }
    }

    /// Counts again from zero.
    pub fn reset(&mut self)
        ensures
            final(self).running == old(self).running,
            final(self).elapsed == 0,
    {
        self.elapsed = 0;
    }

    /// The time shown: minutes and seconds.
    pub fn label(&self) -> (r: String)
        ensures
            r@ == timer_text(self.elapsed as nat),
    {
        timer_label(self.elapsed)
    }
}

/// A stopwatch that was reset shows `00:00`.
pub proof fn lemma_reset_shows_zero()
    ensures
        timer_text(0) == "00:00"@,
{
    reveal_strlit("00:00");
    assert(decimal(0) == seq!['0']);
    assert(timer_text(0) =~= "00:00"@);
}

} // verus!
