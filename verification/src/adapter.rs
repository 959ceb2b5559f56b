//! The schedule of the adapter's background training: the number of feedback
//! pairs between two runs, and the slot that lets at most one run at a time.

use vstd::prelude::*;

verus! {

/// Feedback pairs it takes to train when no training ran recently.
pub const BASE_THRESHOLD: usize = 7;

/// Seconds since the last training, or 0 when the clock reads earlier than it.
pub open spec fn elapsed_secs(last_train_secs: u64, now_secs: u64) -> int {
    if now_secs >= last_train_secs {
        now_secs - last_train_secs
    } else {
        0
    }
}

/// The threshold for a training that ended at `last_train_secs` (0: never),
/// read at `now_secs`: eight times the base within two minutes, four times
/// within five, twice within fifteen, the base after that.
pub open spec fn threshold_spec(last_train_secs: u64, now_secs: u64) -> usize {
    if last_train_secs == 0 {
        BASE_THRESHOLD
    } else {
        let e = elapsed_secs(last_train_secs, now_secs);
        if e < 120 {
            (BASE_THRESHOLD * 8) as usize
        } else if e < 300 {
            (BASE_THRESHOLD * 4) as usize
        } else if e < 900 {
            (BASE_THRESHOLD * 2) as usize
        } else {
            BASE_THRESHOLD
        }
    }
}

/// The threshold for a training that ended at `last_train_secs` (0: never),
/// with the clock reading `now_secs` seconds since the Unix epoch.
pub fn current_threshold(last_train_secs: u64, now_secs: u64) -> (res: usize)
    ensures
        res == threshold_spec(last_train_secs, now_secs),
{
    if last_train_secs == 0 {
        return BASE_THRESHOLD;
    }
    let elapsed_secs = now_secs.saturating_sub(last_train_secs);
    if elapsed_secs < 120 {
        BASE_THRESHOLD * 8
    } else if elapsed_secs < 300 {
        BASE_THRESHOLD * 4
    } else if elapsed_secs < 900 {
        BASE_THRESHOLD * 2
    } else {
        BASE_THRESHOLD
    }
}

/// The longer ago the last training ended, the fewer pairs the next one
/// waits for; it never waits for fewer than the base or more than eight times it.
pub proof fn lemma_threshold_relaxes(last_train_secs: u64, t1: u64, t2: u64)
    requires
        t1 <= t2,
    ensures
        threshold_spec(last_train_secs, t2) <= threshold_spec(last_train_secs, t1),
        BASE_THRESHOLD <= threshold_spec(last_train_secs, t1) <= BASE_THRESHOLD * 8,
{
}

/// How a request to train was answered.
#[derive(PartialEq, Eq, Structural, Debug, Clone, Copy)]
pub enum TrainStart {
    /// No triplets were given: nothing happens.
    NothingToTrain,
    /// A training is already running: this one is skipped.
    AlreadyRunning,
    /// This request starts the training; it must be finished later.
    Started,
}

/// Whether a training is running, and when the last one ended.
pub struct TrainingSlot {
    pub is_training: bool,
    pub last_train_secs: u64,
}

impl TrainingSlot {
    /// No training running, none ever ended.
    pub fn new() -> (res: Self)
        ensures
            !res.is_training,
            res.last_train_secs == 0,
    {
        TrainingSlot { is_training: false, last_train_secs: 0 }
    }

    /// Asks to start a training on `n_triplets` triplets. It starts only when
    /// there is something to train on and no other training is running.
    pub fn try_begin(&mut self, n_triplets: usize) -> (res: TrainStart)
        ensures
            n_triplets == 0 ==> res == TrainStart::NothingToTrain,
            n_triplets > 0 && old(self).is_training ==> res == TrainStart::AlreadyRunning,
            n_triplets > 0 && !old(self).is_training ==> res == TrainStart::Started,
            final(self).is_training == (old(self).is_training || res == TrainStart::Started),
            final(self).last_train_secs == old(self).last_train_secs,
    {
        if n_triplets == 0 {
            return TrainStart::NothingToTrain;
        }
        if self.is_training {
            return TrainStart::AlreadyRunning;
        }
        self.is_training = true;
        TrainStart::Started
    }

    /// Ends the running training at `now_secs`; the next threshold counts from then.
    pub fn finish(&mut self, now_secs: u64)
        ensures
            !final(self).is_training,
            final(self).last_train_secs == now_secs,
    {
        self.last_train_secs = now_secs;
        self.is_training = false;
    }

    /// The threshold now, given the clock.
    pub fn threshold(&self, now_secs: u64) -> (res: usize)
        ensures
            res == threshold_spec(self.last_train_secs, now_secs),
    {
        current_threshold(self.last_train_secs, now_secs)
    }
}

} // verus!

verus! {

/// The threshold after a training, by the time elapsed since it ended: 56
/// pairs within two minutes, 28 within five, 14 within fifteen, and 7 after
/// that or when no training ever ended.
pub proof fn lemma_threshold_bands(last_train_secs: u64, now_secs: u64)
    ensures
        last_train_secs == 0 ==> threshold_spec(last_train_secs, now_secs) == 7,
        last_train_secs != 0 && now_secs < last_train_secs + 120 ==> threshold_spec(
            last_train_secs,
            now_secs,
        ) == 56,
        last_train_secs != 0 && last_train_secs + 120 <= now_secs < last_train_secs + 300
            ==> threshold_spec(last_train_secs, now_secs) == 28,
        last_train_secs != 0 && last_train_secs + 300 <= now_secs < last_train_secs + 900
            ==> threshold_spec(last_train_secs, now_secs) == 14,
        last_train_secs != 0 && last_train_secs + 900 <= now_secs ==> threshold_spec(
            last_train_secs,
            now_secs,
        ) == 7,
{
}

} // verus!
