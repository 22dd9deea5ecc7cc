//! The decisions of a matrix run: which config a candidate gets, how many
//! workers to use, and when the run's single `finished` event is due.
use vstd::prelude::*;

use crate::config::{config_is_valid, validation_outcome, StudioConfig};
use crate::error::StudioResult;
use crate::image_io::ColorImage;
use crate::matrix::CandidateParams;
use crate::metrics::Metrics;

verus! {

/// Long edge of a grid thumbnail.
pub const THUMB_MAX_EDGE: u32 = 360;

/// One computed candidate.
#[derive(Debug, Clone)]
pub struct CandidateResult {
    pub params: CandidateParams,
    pub config: StudioConfig,
    pub svg_text: String,
    pub thumb_png: Vec<u8>,
    pub metrics: Metrics,
}

/// One matrix run over a pre-cropped ROI; `candidates` are the cache misses,
/// in scheduling order.
#[derive(Debug, Clone)]
pub struct MatrixJob {
    pub roi_image: ColorImage,
    pub base: StudioConfig,
    pub candidates: Vec<CandidateParams>,
    pub thumb_max_edge: u32,
}

/// Size of the worker pool given what the machine reports: the reported
/// parallelism (2 when unknown), at most 4.
pub fn worker_count_for(available: Option<usize>) -> (n: usize)
    ensures
        n == (match available {
            Some(a) => if a <= 4 { a } else { 4 },
            None => 2,
        }),
{
    let a = match available {
        Some(a) => a,
        None => 2,
    };
    if a <= 4 {
        a
    } else {
        4
    }
}

/// The effective config of a candidate (base config with its axis values),
/// checked before any tracing.
pub fn candidate_config(base: &StudioConfig, params: &CandidateParams) -> (r: StudioResult<
    StudioConfig,
>)
    ensures
        ({
            let c = StudioConfig {
                gradient_step: params.gradient_step,
                filter_speckle: params.filter_speckle,
                color_precision: params.color_precision,
                ..*base
            };
            match r {
                Ok(x) => x == c && config_is_valid(c),
                Err(e) => validation_outcome(c, Err(e)),
            }
        }),
{
    let config = params.apply_to(base);
    match config.validate() {
        Ok(()) => Ok(config),
        Err(e) => Err(e),
    }
}

/// Progress of one run: scheduled candidates, how many have left the queue
/// (computed or skipped after cancellation) and how many were computed.
pub struct RunProgress {
    total: usize,
    drained: usize,
    completed: usize,
}

/// A run's counters: (total, drained, completed).
pub type ProgressState = (nat, nat, nat);

/// One candidate leaves the queue; `ran` says whether it was computed. The
/// `finished` event, with the completed count, is due when the last one
/// leaves.
pub open spec fn record_step(s: ProgressState, ran: bool) -> (ProgressState, Option<nat>) {
    let drained = s.1 + 1;
    let completed = if ran {
        s.2 + 1
    } else {
        s.2
    };
    ((s.0, drained, completed), if drained == s.0 {
        Some(completed)
    } else {
        None
    })
}

/// The state and the events after the candidates in `ran` left the queue, in order.
pub open spec fn replay(total: nat, ran: Seq<bool>) -> (ProgressState, Seq<Option<nat>>)
    decreases ran.len(),
{
    if ran.len() == 0 {
        ((total, 0, 0), seq![])
    } else {
        let prev = replay(total, ran.drop_last());
        let step = record_step(prev.0, ran.last());
        (step.0, prev.1.push(step.1))
    }
}

pub open spec fn count_true(s: Seq<bool>) -> nat
    decreases s.len(),
{
    if s.len() == 0 {
        0
    } else {
        count_true(s.drop_last()) + if s.last() {
            1nat
        } else {
            0nat
        }
    }
}

impl RunProgress {
    #[verifier::type_invariant]
    spec fn inv(self) -> bool {
        self.completed <= self.drained <= self.total
    }

    pub closed spec fn state(self) -> ProgressState {
        (self.total as nat, self.drained as nat, self.completed as nat)
    }

    /// A run of `total` scheduled candidates, none drained yet.
    pub fn new(total: usize) -> (p: RunProgress)
        ensures
            p.state() == (total as nat, 0nat, 0nat),
    {
        RunProgress { total, drained: 0, completed: 0 }
    }

    /// An empty run finishes at once, with nothing completed.
    pub fn finished_at_start(&self) -> (r: Option<usize>)
        ensures
            r == (if self.state().0 == 0 {
                Some(0usize)
            } else {
                None
            }),
    {
        if self.total == 0 {
            Some(0)
        } else {
            None
        }
    }

    /// Whether every scheduled candidate has left the queue.
    pub fn is_done(&self) -> (b: bool)
        ensures
            b == (self.state().1 == self.state().0),
    {
        self.drained == self.total
    }

    /// Records one candidate leaving the queue; returns the completed count
    /// when this was the last one (the run's `finished` event).
    pub fn record(&mut self, ran: bool) -> (r: Option<usize>)
        requires
            old(self).state().1 < old(self).state().0,
        ensures
            final(self).state() == record_step(old(self).state(), ran).0,
            match r {
                Some(c) => record_step(old(self).state(), ran).1 == Some(c as nat),
                None => record_step(old(self).state(), ran).1 is None,
            },
    {
        proof {
            use_type_invariant(&*self);
        }
        self.drained = self.drained + 1;
        if ran {
            self.completed = self.completed + 1;
        }
        if self.drained == self.total {
            Some(self.completed)
        } else {
            None
        }
    }
}

/// Over a run of `total` candidates, each leaving the queue once, the
/// `finished` event comes exactly once, when the last one leaves, and
/// carries the number of candidates that were computed.
pub proof fn lemma_finished_exactly_once(total: nat, ran: Seq<bool>)
    requires
        ran.len() == total,
        total > 0,
    ensures
        replay(total, ran).1.len() == total,
        forall|i: int| 0 <= i < total - 1 ==> replay(total, ran).1[i] is None,
        replay(total, ran).1[total - 1] == Some(count_true(ran)),
        count_true(ran) <= total,
        (forall|i: int| 0 <= i < ran.len() ==> !ran[i]) ==> count_true(ran) == 0,
        (forall|i: int| 0 <= i < ran.len() ==> ran[i]) ==> count_true(ran) == total,
{
    lemma_replay(total, ran);
    lemma_count_true_extremes(ran);
}

proof fn lemma_count_true_extremes(ran: Seq<bool>)
    ensures
        (forall|i: int| 0 <= i < ran.len() ==> !ran[i]) ==> count_true(ran) == 0,
        (forall|i: int| 0 <= i < ran.len() ==> ran[i]) ==> count_true(ran) == ran.len(),
    decreases ran.len(),
{
    if ran.len() > 0 {
        let p = ran.drop_last();
        lemma_count_true_extremes(p);
        if forall|i: int| 0 <= i < ran.len() ==> !ran[i] {
            assert forall|i: int| 0 <= i < p.len() implies !p[i] by {
                assert(p[i] == ran[i]);
            }
            assert(!ran[ran.len() - 1]);
        }
        if forall|i: int| 0 <= i < ran.len() ==> ran[i] {
            assert forall|i: int| 0 <= i < p.len() implies p[i] by {
                assert(p[i] == ran[i]);
            }
            assert(ran[ran.len() - 1]);
        }
    }
}

proof fn lemma_replay(total: nat, ran: Seq<bool>)
    requires
        ran.len() <= total,
    ensures
        replay(total, ran).0 == (total, ran.len(), count_true(ran)),
        replay(total, ran).1.len() == ran.len(),
        count_true(ran) <= ran.len(),
        forall|i: int|
            0 <= i < ran.len() ==> (#[trigger] replay(total, ran).1[i] is Some <==> i + 1 == total),
        ran.len() == total && total > 0 ==> replay(total, ran).1[total - 1] == Some(
            count_true(ran),
        ),
    decreases ran.len(),
{
    if ran.len() > 0 {
        lemma_replay(total, ran.drop_last());
        let prev = replay(total, ran.drop_last());
        assert forall|i: int| 0 <= i < ran.len() implies (#[trigger] replay(total, ran).1[i] is Some
            <==> i + 1 == total) by {
            if i < ran.len() - 1 {
                assert(replay(total, ran).1[i] == prev.1[i]);
            }
        }
    }
}

} // verus!
