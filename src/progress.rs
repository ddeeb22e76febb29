use vstd::prelude::*;

verus! {

/// What the indicator learns from the scan after a tick.
#[derive(Debug, Clone, Copy, PartialEq, Eq, Structural)]
pub enum Signal {
    /// The scan is still running.
    Pending,
    /// The scan has finished.
    Finished,
    /// The scan can no longer report back.
    Lost,
}

/// What the indicator does next.
#[derive(Debug, Clone, Copy, PartialEq, Eq, Structural)]
pub enum Step {
    /// Keep ticking, with this frame counter.
    Tick(u8),
    /// Erase the indicator line and stop.
    Clear,
    /// Stop without touching the line.
    Stop,
}

/// The spinner frame shown for each counter value.
pub open spec fn spinner(counter: u8) -> char {
    if counter == 0 {
        '|'
    } else if counter == 1 {
        '/'
    } else if counter == 2 {
        '-'
    } else {
        '\\'
    }
}

/// The spinner frame for `counter`.
pub fn frame(counter: u8) -> (r: char)
    requires
        counter < 4,
    ensures
        r == spinner(counter),
{
    match counter {
        0 => '|',
        1 => '/',
        2 => '-',
        _ => '\\',
    }
}

/// The step after a tick shown with `counter`, given what the scan signalled:
/// the counter cycles through the four frames while the scan runs.
pub fn next_step(counter: u8, signal: Signal) -> (r: Step)
    requires
        counter < 4,
    ensures
        signal == Signal::Pending ==> r == Step::Tick(((counter + 1) % 4) as u8),
        signal == Signal::Finished ==> r == Step::Clear,
        signal == Signal::Lost ==> r == Step::Stop,
{
    match signal {
        Signal::Pending => {
            if counter == 3 {
                Step::Tick(0)
            } else {
                Step::Tick(counter + 1)
            }
        },
        Signal::Finished => Step::Clear,
        Signal::Lost => Step::Stop,
    }
}

} // verus!
