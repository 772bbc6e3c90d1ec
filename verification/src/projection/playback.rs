//! Frame sequencing for playback: which frame is shown after a number of
//! frame intervals, with plain wraparound or bouncing back and forth.

use vstd::prelude::*;

verus! {

/// Length of one full back-and-forth pass over `total` frames: every frame
/// but the two end frames is visited twice.
pub open spec fn bounce_period(total: int) -> int {
    2 * total - 2
}

/// Position in the forward-started wave after `count` intervals.
pub open spec fn forward_phase(start: int, count: int, total: int) -> int {
    (start + count) % bounce_period(total)
}

/// Position in the backward-started wave after `count` intervals. The wave is
/// entered at `total - start - 2`, which is below zero only at the last frame,
/// and only while nothing has elapsed.
pub open spec fn backward_phase(start: int, count: int, total: int) -> int {
    let entered = total - start - 2 + count;
    if entered < 0 {
        entered
    } else {
        entered % bounce_period(total)
    }
}

/// The frame shown `count` intervals after frame `start` of `total`.
/// `initial` is `None` for plain wraparound; `Some(false)` and `Some(true)`
/// bounce, starting forward and backward.
pub open spec fn advanced_frame(start: int, count: int, total: int, initial: Option<bool>) -> int {
    if total == 1 {
        0
    } else {
        match initial {
            None => (start + count) % total,
            Some(false) => {
                let m = forward_phase(start, count, total);
                if m < total {
                    m
                } else {
                    bounce_period(total) - m
                }
            },
            Some(true) => {
                let m = backward_phase(start, count, total);
                if m < total - 2 {
                    total - 2 - m
                } else {
                    m - (total - 2)
                }
            },
        }
    }
}

/// The direction of travel `count` intervals after frame `start`: `true` is
/// backward. `current` is kept where the sequence has no direction.
pub open spec fn advanced_direction(
    start: int,
    count: int,
    total: int,
    initial: Option<bool>,
    current: Option<bool>,
) -> Option<bool> {
    if total == 1 {
        current
    } else {
        match initial {
            None => current,
            Some(false) => Some(forward_phase(start, count, total) >= total),
            Some(true) => Some(backward_phase(start, count, total) < total - 2),
        }
    }
}

/// Moves playback on by `count_from_start` frame intervals from frame
/// `start`. Returns the frame to show and records the direction of travel in
/// `current_bouncing_back`.
pub fn advance_current_frame(
    start: usize,
    count_from_start: usize,
    total: usize,
    initial_bouncing_back: &Option<bool>,
    current_bouncing_back: &mut Option<bool>,
) -> (frame: usize)
    requires
        total >= 1,
        *initial_bouncing_back == Some(true) ==> start < total,
    ensures
        frame == advanced_frame(
            start as int,
            count_from_start as int,
            total as int,
            *initial_bouncing_back,
        ),
        *final(current_bouncing_back) == advanced_direction(
            start as int,
            count_from_start as int,
            total as int,
            *initial_bouncing_back,
            *old(current_bouncing_back),
        ),
        frame < total,
{
    if total == 1 {
        return 0;
    }
    let total_wide: u128 = total as u128;
    let reached: u128 = start as u128 + count_from_start as u128;
    match initial_bouncing_back {
        None => (reached % total_wide) as usize,
        Some(false) => {
            let period: u128 = total_wide + total_wide - 2;
            let m: u128 = reached % period;
            if m < total_wide {
                *current_bouncing_back = Some(false);
                m as usize
            } else {
                *current_bouncing_back = Some(true);
                (period - m) as usize
            }
        },
        Some(true) => {
            let period: u128 = total_wide + total_wide - 2;
            let ahead: u128 = total_wide + count_from_start as u128 - start as u128;
            if ahead < 2 {
                *current_bouncing_back = Some(true);
                (total_wide - ahead) as usize
            } else {
                let m: u128 = (ahead - 2) % period;
                if m < total_wide - 2 {
                    *current_bouncing_back = Some(true);
                    (total_wide - 2 - m) as usize
                } else {
                    *current_bouncing_back = Some(false);
                    (m - (total_wide - 2)) as usize
                }
            }
        },
    }
}

/// Playback repeats: after one more full period the same frame is shown,
/// moving in the same direction. The period is `total` frames with plain
/// wraparound and `2 * total - 2` when bouncing.
pub proof fn lemma_playback_is_periodic(
    start: int,
    count: int,
    total: int,
    initial: Option<bool>,
    current: Option<bool>,
)
    requires
        total >= 2,
        0 <= start,
        0 <= count,
        initial == Some(true) ==> start < total && (start < total - 1 || count > 0),
    ensures
        ({
            let period = if initial is None {
                total
            } else {
                bounce_period(total)
            };
            &&& advanced_frame(start, count + period, total, initial) == advanced_frame(
                start,
                count,
                total,
                initial,
            )
            &&& advanced_direction(start, count + period, total, initial, current)
                == advanced_direction(start, count, total, initial, current)
        }),
{
    let period = if initial is None {
        total
    } else {
        bounce_period(total)
    };
    let base = if initial == Some(true) {
        total - start - 2 + count
    } else {
        start + count
    };
    assert((base + period) % period == base % period) by (nonlinear_arith)
        requires
            period > 0,
            base >= 0,
    ;
}

/// A bouncing sequence never jumps: one interval later the frame shown is the
/// same or a neighbour.
pub proof fn lemma_bounce_moves_one_frame(start: int, count: int, total: int, backward: bool)
    requires
        total >= 2,
        0 <= start < total,
        0 <= count,
    ensures
        ({
            let now = advanced_frame(start, count, total, Some(backward));
            let next = advanced_frame(start, count + 1, total, Some(backward));
            now - 1 <= next <= now + 1
        }),
{
    let period = bounce_period(total);
    let base = if backward {
        total - start - 2 + count
    } else {
        start + count
    };
    if base >= 0 {
        assert(0 <= base % period < period && (base + 1) % period == if base % period == period
            - 1 {
            0
        } else {
            base % period + 1
        }) by (nonlinear_arith)
            requires
                period > 0,
                base >= 0,
        ;
    } else {
        assert(0int % period == 0) by (nonlinear_arith)
            requires
                period > 0,
        ;
    }
}

/// Playback state of one view.
pub struct Playback {
    enabled: bool,
    first_frame: Option<usize>,
    initial_bouncing_back: Option<bool>,
    current_bouncing_back: Option<bool>,
}

impl Playback {
    pub closed spec fn spec_enabled(&self) -> bool {
        self.enabled
    }

    /// The frame at which the running playback was started.
    pub closed spec fn spec_first_frame(&self) -> Option<usize> {
        self.first_frame
    }

    /// `None` stands for plain wraparound; otherwise the direction in which
    /// the running playback started, `true` being backward.
    pub closed spec fn spec_initial_bouncing_back(&self) -> Option<bool> {
        self.initial_bouncing_back
    }

    /// The direction of travel last seen.
    pub closed spec fn spec_current_bouncing_back(&self) -> Option<bool> {
        self.current_bouncing_back
    }

    /// While playback runs its first frame is known.
    pub open spec fn wf(&self) -> bool {
        self.spec_enabled() ==> self.spec_first_frame() is Some
    }

    /// Stopped playback, set to bounce and to start forward.
    pub fn new() -> (playback: Playback)
        ensures
            playback.wf(),
            !playback.spec_enabled(),
            playback.spec_first_frame() is None,
            playback.spec_initial_bouncing_back() == Some(false),
            playback.spec_current_bouncing_back() == Some(false),
    {
        Playback {
            enabled: false,
            first_frame: None,
            initial_bouncing_back: Some(false),
            current_bouncing_back: Some(false),
        }
    }

    pub fn playing(&self) -> (enabled: bool)
        ensures
            enabled == self.spec_enabled(),
    {
        self.enabled
    }

    pub fn bouncing_back_enabled(&self) -> (enabled: bool)
        ensures
            enabled == self.spec_initial_bouncing_back() is Some,
    {
        self.initial_bouncing_back.is_some()
    }

    /// Restarts the count of elapsed frames at `current_frame`; playback goes
    /// on in the direction last seen.
    pub fn reset(&mut self, current_frame: usize)
        ensures
            final(self).spec_enabled() == old(self).spec_enabled(),
            final(self).spec_first_frame() == Some(current_frame),
            final(self).spec_initial_bouncing_back() == old(self).spec_current_bouncing_back(),
            final(self).spec_current_bouncing_back() == old(self).spec_current_bouncing_back(),
            final(self).wf(),
    {
        self.first_frame = Some(current_frame);
        self.initial_bouncing_back = self.current_bouncing_back;
    }

    /// Starts playback at `current_frame` if it is stopped, stops it if it
    /// runs.
    pub fn toggle_playing(&mut self, current_frame: usize)
        ensures
            final(self).spec_enabled() == !old(self).spec_enabled(),
            final(self).spec_current_bouncing_back() == old(self).spec_current_bouncing_back(),
            final(self).spec_enabled() ==> {
                &&& final(self).spec_first_frame() == Some(current_frame)
                &&& final(self).spec_initial_bouncing_back() == old(self).spec_current_bouncing_back()
            },
            !final(self).spec_enabled() ==> {
                &&& final(self).spec_first_frame() is None
                &&& final(self).spec_initial_bouncing_back() == old(self).spec_initial_bouncing_back()
            },
            final(self).wf(),
    {
        self.enabled = !self.enabled;
        if self.enabled {
            self.reset(current_frame);
        } else {
            self.first_frame = None;
        }
    }

    /// Switches between plain wraparound and bouncing, which starts forward.
    pub fn toggle_bouncing_back(&mut self)
        ensures
            final(self).spec_enabled() == old(self).spec_enabled(),
            final(self).spec_first_frame() == old(self).spec_first_frame(),
            old(self).spec_initial_bouncing_back() is None ==> {
                &&& final(self).spec_initial_bouncing_back() == Some(false)
                &&& final(self).spec_current_bouncing_back() == Some(false)
            },
            old(self).spec_initial_bouncing_back() is Some ==> {
                &&& final(self).spec_initial_bouncing_back() is None
                &&& final(self).spec_current_bouncing_back() == old(self).spec_current_bouncing_back()
            },
            final(self).wf() == old(self).wf(),
    {
        match self.initial_bouncing_back {
            None => {
                self.initial_bouncing_back = Some(false);
                self.current_bouncing_back = Some(false);
            },
            Some(_) => {
                self.initial_bouncing_back = None;
            },
        }
    }

    /// The frame to show once `elapsed_frames` frame intervals have passed
    /// since playback was started or reset; `None` while playback is stopped.
    pub fn play(&mut self, elapsed_frames: usize, total: usize) -> (frame: Option<usize>)
        requires
            old(self).wf(),
            total >= 1,
            old(self).spec_enabled() ==> old(self).spec_first_frame()->0 < total,
        ensures
            final(self).wf(),
            final(self).spec_enabled() == old(self).spec_enabled(),
            final(self).spec_first_frame() == old(self).spec_first_frame(),
            final(self).spec_initial_bouncing_back() == old(self).spec_initial_bouncing_back(),
            !old(self).spec_enabled() ==> frame is None && final(self).spec_current_bouncing_back()
                == old(self).spec_current_bouncing_back(),
            old(self).spec_enabled() ==> {
                &&& frame == Some(
                    advanced_frame(
                        old(self).spec_first_frame()->0 as int,
                        elapsed_frames as int,
                        total as int,
                        old(self).spec_initial_bouncing_back(),
                    ) as usize,
                )
                &&& frame->0 < total
                &&& final(self).spec_current_bouncing_back() == advanced_direction(
                    old(self).spec_first_frame()->0 as int,
                    elapsed_frames as int,
                    total as int,
                    old(self).spec_initial_bouncing_back(),
                    old(self).spec_current_bouncing_back(),
                )
            },
    {
        if !self.enabled {
            return None;
        }
        let first_frame = match self.first_frame {
            Some(first_frame) => first_frame,
            None => 0,
        };
        let initial = self.initial_bouncing_back;
        let mut current = self.current_bouncing_back;
        let frame = advance_current_frame(first_frame, elapsed_frames, total, &initial, &mut current);
        self.current_bouncing_back = current;
        Some(frame)
    }
}

} // verus!
