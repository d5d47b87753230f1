//! Animation playback state: frame advance by elapsed time, loop counting,
//! pause, single-frame steps and restart. Advanced by explicit time
//! deltas, in nanoseconds, that the caller measures.

use vstd::prelude::*;
use crate::image_render::RgbaImage;

verus! {

/// The longest duration there is (std's `Duration::MAX`), in nanoseconds.
pub const DURATION_MAX_NANOS: u128 = 18_446_744_073_709_551_615_999_999_999;

/// Frames with a delay below `TINY_NANOS` are shown this long, as viewers
/// do: zero-delay or absurdly fast animations must not busy-loop.
pub const MIN_FRAME_DELAY_NANOS: u128 = 100_000_000;
pub const TINY_NANOS: u128 = 10_000_000;

/// How long a frame with stored delay `d` is shown.
pub open spec fn effective_delay(d: u128) -> u128 {
    if d < TINY_NANOS { MIN_FRAME_DELAY_NANOS } else { d }
}

/// The playback state that `advance` changes.
pub struct Playback {
    pub current: nat,
    pub elapsed: nat,
    pub loops_done: nat,
    pub playing: bool,
    pub finished: bool,
}

/// Spend `elapsed` time from frame `current`: each frame's delay moves to
/// the next frame; wrapping past the last counts a loop, and reaching a
/// finite loop count finishes on the last frame.
pub open spec fn run_frames(delays: Seq<u128>, loop_count: Option<u32>, current: nat, elapsed: nat, loops_done: nat) -> Playback
    decreases elapsed,
{
    if current >= delays.len() {
        Playback { current, elapsed, loops_done, playing: true, finished: false }
    } else {
        let d = effective_delay(delays[current as int]) as nat;
        if elapsed < d {
            Playback { current, elapsed, loops_done, playing: true, finished: false }
        } else {
            let e = (elapsed - d) as nat;
            if current + 1 < delays.len() {
                run_frames(delays, loop_count, current + 1, e, loops_done)
            } else {
                let ld = if loops_done < u32::MAX { loops_done + 1 } else { loops_done };
                match loop_count {
                    Some(n) if ld >= n => Playback {
                        current: (delays.len() - 1) as nat,
                        elapsed: 0,
                        loops_done: ld,
                        playing: false,
                        finished: true,
                    },
                    _ => run_frames(delays, loop_count, 0, e, ld),
                }
            }
        }
    }
}

/// The frame `delta` frames from `current`, wrapping over `n` frames.
pub open spec fn step_index(current: int, delta: int, n: int) -> int {
    (current + delta) % n
}

/// Decoded frames (image and delay) and where playback stands.
pub struct AnimationState {
    frames: Vec<(RgbaImage, u128)>,
    loop_count: Option<u32>,
    current: usize,
    elapsed_in_frame: u128,
    playing: bool,
    loops_done: u32,
    finished: bool,
}

impl AnimationState {
    #[verifier::type_invariant]
    closed spec fn inv(&self) -> bool {
        &&& (self.frames@.len() == 0 ==> self.current == 0)
        &&& (self.frames@.len() > 0 ==> self.current < self.frames@.len())
        &&& self.elapsed_in_frame <= DURATION_MAX_NANOS
        &&& forall|i: int| 0 <= i < self.frames@.len() ==> #[trigger] self.frames@[i].1 <= DURATION_MAX_NANOS
    }

    /// The frame delays, in order.
    pub closed spec fn delays(&self) -> Seq<u128> {
        Seq::new(self.frames@.len(), |i: int| self.frames@[i].1)
    }

    /// The image of frame `i`.
    pub closed spec fn image(&self, i: int) -> RgbaImage {
        self.frames@[i].0
    }

    pub closed spec fn current_spec(&self) -> nat {
        self.current as nat
    }

    pub closed spec fn elapsed(&self) -> nat {
        self.elapsed_in_frame as nat
    }

    pub closed spec fn loops(&self) -> nat {
        self.loops_done as nat
    }

    pub closed spec fn loop_limit(&self) -> Option<u32> {
        self.loop_count
    }

    pub closed spec fn playing_spec(&self) -> bool {
        self.playing
    }

    pub closed spec fn finished_spec(&self) -> bool {
        self.finished
    }

    /// Start playing `frames` (each with its delay in nanoseconds) from
    /// frame 0; `loop_count` of `None` loops forever.
    pub fn new(frames: Vec<(RgbaImage, u128)>, loop_count: Option<u32>) -> (a: Self)
        requires
            forall|i: int| 0 <= i < frames@.len() ==> #[trigger] frames@[i].1 <= DURATION_MAX_NANOS,
        ensures
            a.delays() == Seq::new(frames@.len(), |i: int| frames@[i].1),
            forall|i: int| 0 <= i < frames@.len() ==> #[trigger] a.image(i) == frames@[i].0,
            a.loop_limit() == loop_count,
            a.current_spec() == 0,
            a.elapsed() == 0,
            a.loops() == 0,
            a.playing_spec(),
            !a.finished_spec(),
    {
        AnimationState {
            frames,
            loop_count,
            current: 0,
            elapsed_in_frame: 0,
            playing: true,
            loops_done: 0,
            finished: false,
        }
    }

    /// The image on show.
    pub fn current_frame(&self) -> (img: &RgbaImage)
        requires
            self.delays().len() > 0,
        ensures
            *img == self.image(self.current_spec() as int),
    {
        proof {
            use_type_invariant(self);
        }
        &self.frames[self.current].0
    }

    /// Index of the frame on show.
    pub fn frame_index(&self) -> (i: usize)
        ensures
            i == self.current_spec(),
            self.delays().len() > 0 ==> i < self.delays().len(),
    {
        proof {
            use_type_invariant(self);
        }
        self.current
    }

    pub fn frame_count(&self) -> (n: usize)
        ensures
            n == self.delays().len(),
    {
        self.frames.len()
    }

    pub fn is_playing(&self) -> (b: bool)
        ensures
            b == self.playing_spec(),
    {
        self.playing
    }

    pub fn is_finished(&self) -> (b: bool)
        ensures
            b == self.finished_spec(),
    {
        self.finished
    }

    fn frame_delay(&self, i: usize) -> (d: u128)
        requires
            i < self.delays().len(),
        ensures
            d == effective_delay(self.delays()[i as int]),
            d >= TINY_NANOS,
            d <= DURATION_MAX_NANOS,
    {
        proof {
            use_type_invariant(self);
        }
        let d = self.frames[i].1;
        if d < TINY_NANOS { MIN_FRAME_DELAY_NANOS } else { d }
    }

    /// Let `dt` nanoseconds pass: later frames come up as each delay runs
    /// out (a large `dt` may cross several); wrapping past the last frame
    /// counts a loop, and reaching a finite loop count finishes playback on
    /// the last frame. Nothing happens while paused, once finished, or with
    /// fewer than two frames. Says whether the frame on show changed.
    pub fn advance(&mut self, dt: u128) -> (changed: bool)
        requires
            old(self).elapsed() + dt <= DURATION_MAX_NANOS,
        ensures
            final(self).delays() == old(self).delays(),
            final(self).loop_limit() == old(self).loop_limit(),
            (!old(self).playing_spec() || old(self).finished_spec() || old(self).delays().len() <= 1) ==> {
                &&& !changed
                &&& final(self).current_spec() == old(self).current_spec()
                &&& final(self).elapsed() == old(self).elapsed()
                &&& final(self).loops() == old(self).loops()
                &&& final(self).playing_spec() == old(self).playing_spec()
                &&& final(self).finished_spec() == old(self).finished_spec()
            },
            (old(self).playing_spec() && !old(self).finished_spec() && old(self).delays().len() > 1) ==> {
                let p = run_frames(old(self).delays(), old(self).loop_limit(), old(self).current_spec(),
                    (old(self).elapsed() + dt) as nat, old(self).loops());
                &&& final(self).current_spec() == p.current
                &&& final(self).elapsed() == p.elapsed
                &&& final(self).loops() == p.loops_done
                &&& final(self).playing_spec() == p.playing
                &&& final(self).finished_spec() == p.finished
                &&& changed == (p.current != old(self).current_spec())
            },
    {
        proof {
            use_type_invariant(&*self);
        }
        if !self.playing || self.finished || self.frames.len() <= 1 {
            return false;
        }
        let ghost delays = self.delays();
        let ghost lc = self.loop_count;
        let ghost target = run_frames(delays, lc, self.current as nat, (self.elapsed_in_frame + dt) as nat, self.loops_done as nat);
        let start = self.current;
        self.elapsed_in_frame = self.elapsed_in_frame + dt;
        loop
            invariant_except_break
                self.delays() == delays,
                self.loop_count == lc,
                delays.len() > 1,
                self.current < delays.len(),
                self.frames@.len() == delays.len(),
                self.playing,
                !self.finished,
                self.elapsed_in_frame <= DURATION_MAX_NANOS,
                run_frames(delays, lc, self.current as nat, self.elapsed_in_frame as nat, self.loops_done as nat) == target,
            ensures
                self.delays() == delays,
                self.loop_count == lc,
                self.current < delays.len(),
                self.elapsed_in_frame <= DURATION_MAX_NANOS,
                self.current as nat == target.current,
                self.elapsed_in_frame as nat == target.elapsed,
                self.loops_done as nat == target.loops_done,
                self.playing == target.playing,
                self.finished == target.finished,
            decreases self.elapsed_in_frame,
        {
            proof {
                use_type_invariant(&*self);
            }
            let delay = self.frame_delay(self.current);
            if self.elapsed_in_frame < delay {
                break;
            }
            self.elapsed_in_frame = self.elapsed_in_frame - delay;
            if self.current < self.frames.len() - 1 {
                self.current = self.current + 1;
            } else {
                if self.loops_done < u32::MAX {
                    self.loops_done = self.loops_done + 1;
                }
                let mut done = false;
                if let Some(n) = self.loop_count {
                    if self.loops_done >= n {
                        done = true;
                    }
                }
                if done {
                    self.finished = true;
                    self.playing = false;
                    self.current = self.frames.len() - 1;
                    self.elapsed_in_frame = 0;
                    break;
                }
                self.current = 0;
            }
        }
        self.current != start
    }

    /// Time until the next frame comes up, or `None` while paused, once
    /// finished, or with fewer than two frames.
    pub fn next_deadline(&self) -> (r: Option<u128>)
        ensures
            (!self.playing_spec() || self.finished_spec() || self.delays().len() <= 1) ==> r is None,
            (self.playing_spec() && !self.finished_spec() && self.delays().len() > 1) ==> r == Some((
                if effective_delay(self.delays()[self.current_spec() as int]) >= self.elapsed() {
                    (effective_delay(self.delays()[self.current_spec() as int]) - self.elapsed()) as u128
                } else {
                    0u128
                })),
    {
        proof {
            use_type_invariant(self);
        }
        if !self.playing || self.finished || self.frames.len() <= 1 {
            return None;
        }
        Some(self.frame_delay(self.current).saturating_sub(self.elapsed_in_frame))
    }

    /// Play/pause toggle. A finished animation starts again instead.
    pub fn toggle_pause(&mut self)
        ensures
            final(self).delays() == old(self).delays(),
            final(self).loop_limit() == old(self).loop_limit(),
            old(self).finished_spec() ==> {
                &&& final(self).current_spec() == 0
                &&& final(self).elapsed() == 0
                &&& final(self).loops() == 0
                &&& final(self).playing_spec()
                &&& !final(self).finished_spec()
            },
            !old(self).finished_spec() ==> {
                &&& final(self).playing_spec() == !old(self).playing_spec()
                &&& final(self).current_spec() == old(self).current_spec()
                &&& final(self).elapsed() == old(self).elapsed()
                &&& final(self).loops() == old(self).loops()
                &&& !final(self).finished_spec()
            },
    {
        proof {
            use_type_invariant(&*self);
        }
        if self.finished {
            self.restart();
            return;
        }
        self.playing = !self.playing;
    }

    /// Pause and move `delta` frames (wrapping); clears the finished state.
    pub fn step(&mut self, delta: i32)
        ensures
            final(self).delays() == old(self).delays(),
            final(self).loop_limit() == old(self).loop_limit(),
            !final(self).playing_spec(),
            !final(self).finished_spec(),
            final(self).elapsed() == 0,
            final(self).loops() == old(self).loops(),
            old(self).delays().len() == 0 ==> final(self).current_spec() == old(self).current_spec(),
            old(self).delays().len() > 0 ==> final(self).current_spec()
                == step_index(old(self).current_spec() as int, delta as int, old(self).delays().len() as int),
    {
        proof {
            use_type_invariant(&*self);
        }
        self.playing = false;
        self.finished = false;
        self.elapsed_in_frame = 0;
        let n = self.frames.len();
        if n == 0 {
            return;
        }
        let s: i128 = self.current as i128 + delta as i128;
        let nn = n as i128;
        let next: i128 = if s >= 0 {
            s % nn
        } else {
            let t = (-s) % nn;
            if t == 0 { 0 } else { nn - t }
        };
        proof {
            lemma_wrap(s as int, nn as int);
        }
        self.current = next as usize;
    }

    /// Start again from frame 0, playing, with the loop count reset.
    pub fn restart(&mut self)
        ensures
            final(self).delays() == old(self).delays(),
            final(self).loop_limit() == old(self).loop_limit(),
            final(self).current_spec() == 0,
            final(self).elapsed() == 0,
            final(self).loops() == 0,
            final(self).playing_spec(),
            !final(self).finished_spec(),
    {
        proof {
            use_type_invariant(&*self);
        }
        self.current = 0;
        self.elapsed_in_frame = 0;
        self.loops_done = 0;
        self.finished = false;
        self.playing = true;
    }
}

/// The wrapped index as computed from nonnegative remainders.
proof fn lemma_wrap(s: int, n: int)
    requires
        n > 0,
    ensures
        s >= 0 ==> s % n == s % n,
        s < 0 ==> (if (-s) % n == 0 { 0 } else { n - (-s) % n }) == s % n,
        0 <= s % n < n,
{
    if s < 0 {
        let t = (-s) % n;
        let q = (-s) / n;
        assert(-s == q * n + t) by (nonlinear_arith)
            requires
                n > 0,
                q == (-s) / n,
                t == (-s) % n,
        ;
        if t == 0 {
            assert(s == (-q) * n) by (nonlinear_arith)
                requires
                    -s == q * n + t,
                    t == 0,
            ;
            vstd::arithmetic::div_mod::lemma_mod_multiples_basic(-q, n);
            assert((-q) * n == n * (-q)) by (nonlinear_arith);
        } else {
            assert(s == (-q - 1) * n + (n - t)) by (nonlinear_arith)
                requires
                    -s == q * n + t,
            ;
            vstd::arithmetic::div_mod::lemma_fundamental_div_mod_converse(s, n, -q - 1, n - t);
        }
    }
}

/// Stepping one frame forward then one back (or back then forward) returns
/// to the same frame.
pub proof fn lemma_step_round_trip(current: int, n: int)
    requires
        0 <= current < n,
    ensures
        step_index(step_index(current, 1, n), -1, n) == current,
        step_index(step_index(current, -1, n), 1, n) == current,
{
    let f = step_index(current, 1, n);
    let b = step_index(current, -1, n);
    vstd::arithmetic::div_mod::lemma_small_mod(current as nat, n as nat);
    if current + 1 < n {
        vstd::arithmetic::div_mod::lemma_small_mod((current + 1) as nat, n as nat);
    } else {
        vstd::arithmetic::div_mod::lemma_mod_self_0(n);
        vstd::arithmetic::div_mod::lemma_small_mod((n - 1) as nat, n as nat);
        vstd::arithmetic::div_mod::lemma_fundamental_div_mod_converse(-1, n, -1, n - 1);
    }
    if current > 0 {
        vstd::arithmetic::div_mod::lemma_small_mod((current - 1) as nat, n as nat);
    } else {
        vstd::arithmetic::div_mod::lemma_fundamental_div_mod_converse(-1, n, -1, n - 1);
        vstd::arithmetic::div_mod::lemma_mod_self_0(n);
    }
}

} // verus!
