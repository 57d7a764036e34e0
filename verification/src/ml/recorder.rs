//! Recent requests, and samples of them collected on demand.

use crate::ml::features::RequestFeatures;
use std::collections::VecDeque;
use vstd::prelude::*;

verus! {

/// Number of recent requests that are kept before old ones roll off.
pub const CAPACITY: usize = 256;

/// Collects the features of the requests that come in.
///
/// It keeps the most recent requests at all times, and on demand it gathers a contiguous sample
/// for training. `D` is where a sample is to be sent; the recorder hands it back together with the
/// sample that belongs to it.
pub struct Recorder<D> {
    recent: VecDeque<RequestFeatures>,
    sample: Option<Sample<D>>,
}

/// A sample that is being gathered.
struct Sample<D> {
    collected: Vec<RequestFeatures>,
    target: usize,
    done: D,
}

/// What a sample in progress holds.
#[verifier::ext_equal]
pub struct SampleView<D> {
    /// The features gathered so far, oldest first.
    pub collected: Seq<RequestFeatures>,
    /// The size at which the sample is complete.
    pub target: usize,
    /// Where the sample goes.
    pub done: D,
}

/// What a recorder holds.
#[verifier::ext_equal]
pub struct RecorderView<D> {
    /// The most recent requests, oldest first.
    pub recent: Seq<RequestFeatures>,
    /// The sample in progress.
    pub sample: Option<SampleView<D>>,
}

impl<D> View for Recorder<D> {
    type V = RecorderView<D>;

    closed spec fn view(&self) -> RecorderView<D> {
        RecorderView {
            recent: self.recent@,
            sample: match self.sample {
                Some(s) => Some(
                    SampleView { collected: s.collected@, target: s.target, done: s.done },
                ),
                None => None,
            },
        }
    }
}

/// The last requests, up to the capacity, once one more has come in.
pub open spec fn roll(recent: Seq<RequestFeatures>, features: RequestFeatures) -> Seq<
    RequestFeatures,
> {
    if recent.len() == CAPACITY {
        recent.skip(1).push(features)
    } else {
        recent.push(features)
    }
}

impl<D> RecorderView<D> {
    /// Whether no more than the capacity is kept, and no sample in progress is already complete.
    pub open spec fn wf(self) -> bool {
        &&& self.recent.len() <= CAPACITY
        &&& self.sample matches Some(s) ==> s.collected.len() == 0 || s.collected.len() < s.target
    }

    /// The sample in progress once one more request has come in.
    pub open spec fn grown(self, features: RequestFeatures) -> Option<SampleView<D>> {
        match self.sample {
            Some(s) => Some(SampleView { collected: s.collected.push(features), ..s }),
            None => None,
        }
    }

    /// The sample that one more request completes, and where it goes.
    pub open spec fn delivers(self, features: RequestFeatures) -> Option<
        (D, Seq<RequestFeatures>),
    > {
        match self.grown(features) {
            Some(s) => if s.collected.len() >= s.target {
                Some((s.done, s.collected))
            } else {
                None
            },
            None => None,
        }
    }

    /// The recorder once one more request has come in.
    pub open spec fn recorded(self, features: RequestFeatures) -> Self {
        RecorderView {
            recent: roll(self.recent, features),
            sample: if self.delivers(features) is Some {
                None
            } else {
                self.grown(features)
            },
        }
    }

    /// The recorder once a new sample has been started.
    pub open spec fn started(self, size: usize, done: D) -> Self {
        RecorderView {
            recent: self.recent,
            sample: Some(SampleView { collected: Seq::empty(), target: size, done }),
        }
    }

    /// The recorder once a list of requests has come in.
    pub open spec fn recorded_all(self, requests: Seq<RequestFeatures>) -> Self
        decreases requests.len(),
    {
        if requests.len() == 0 {
            self
        } else {
            self.recorded_all(requests.drop_last()).recorded(requests.last())
        }
    }

    /// The samples that a list of requests completes, in order.
    pub open spec fn delivered_all(self, requests: Seq<RequestFeatures>) -> Seq<
        (D, Seq<RequestFeatures>),
    >
        decreases requests.len(),
    {
        if requests.len() == 0 {
            Seq::empty()
        } else {
            let before = self.delivered_all(requests.drop_last());
            match self.recorded_all(requests.drop_last()).delivers(requests.last()) {
                Some(delivery) => before.push(delivery),
                None => before,
            }
        }
    }
}

impl<D> Recorder<D> {
    /// A recorder that has seen no request.
    pub fn new() -> (r: Self)
        ensures
            r@ == (RecorderView {
                recent: Seq::<RequestFeatures>::empty(),
                sample: None::<SampleView<D>>,
            }),
            r@.wf(),
    {
        Recorder { recent: VecDeque::with_capacity(CAPACITY), sample: None }
    }

    /// Records the features of one request, which is to be done before it is proxied or challenged.
    /// Returns a sample that is now complete, with where it is to be sent.
    pub fn record(&mut self, features: RequestFeatures) -> (r: Option<(D, Vec<RequestFeatures>)>)
        ensures
            final(self)@ == old(self)@.recorded(features),
            old(self)@.wf() ==> final(self)@.wf(),
            match r {
                Some((done, collected)) => old(self)@.delivers(features) == Some(
                    (done, collected@),
                ),
                None => old(self)@.delivers(features) is None,
            },
    {
        if self.recent.len() == CAPACITY {
            let _ = self.recent.pop_front();
        }
        self.recent.push_back(features);
        assert(self.recent@ =~= roll(old(self).recent@, features));
        match self.sample.take() {
            Some(mut sample) => {
                sample.collected.push(features);
                if sample.collected.len() >= sample.target {
                    Some((sample.done, sample.collected))
                } else {
                    self.sample = Some(sample);
                    None
                }
            },
            None => None,
        }
    }

    /// Starts collecting a contiguous sample of features.
    ///
    /// Only one sample is in progress at a time: one that was is handed back as it is, with where
    /// it was to be sent. So a sample can be shorter than it was asked for.
    pub fn start_sample(&mut self, size: usize, done: D) -> (r: Option<(D, Vec<RequestFeatures>)>)
        ensures
            final(self)@ == old(self)@.started(size, done),
            old(self)@.wf() ==> final(self)@.wf(),
            match r {
                Some((channel, collected)) => old(self)@.sample matches Some(s) && channel == s.done
                    && collected@ == s.collected,
                None => old(self)@.sample is None,
            },
    {
        let previous = match self.sample.take() {
            Some(sample) => Some((sample.done, sample.collected)),
            None => None,
        };
        self.sample = Some(Sample { collected: Vec::new(), target: size, done });
        previous
    }
}

/// The recorder keeps exactly the last requests that came in, up to its capacity, oldest first.
pub proof fn law_recent_requests_are_kept<D>(
    before: RecorderView<D>,
    requests: Seq<RequestFeatures>,
)
    requires
        before.wf(),
    ensures
        ({
            let seen = before.recent + requests;
            let kept = if seen.len() <= CAPACITY {
                seen.len()
            } else {
                CAPACITY as nat
            };
            before.recorded_all(requests).recent == seen.skip(seen.len() - kept)
        }),
        before.recorded_all(requests).wf(),
    decreases requests.len(),
{
    let seen = before.recent + requests;
    if requests.len() == 0 {
        assert(seen =~= before.recent);
        assert(seen.skip(0) =~= before.recent);
    } else {
        let last = requests.last();
        let rest = requests.drop_last();
        law_recent_requests_are_kept(before, rest);
        let earlier = before.recent + rest;
        assert(seen =~= earlier.push(last));
        let state = before.recorded_all(rest);
        assert(state.recorded(last).recent == roll(state.recent, last));
        if earlier.len() < CAPACITY {
            assert(earlier.skip(0) =~= earlier);
            assert(seen.skip(0) =~= seen);
        } else {
            assert(earlier.skip(earlier.len() - CAPACITY).skip(1).push(last) =~= seen.skip(
                seen.len() - CAPACITY,
            ));
        }
    }
}

/// A sample that is started and not interrupted holds just the requests that came in after its
/// start, in order. It goes out, to where it was meant to go, with the request that brings it to
/// its size, or with the first one where it was asked for no request at all. It goes out once: the
/// requests behind that one add nothing to it, and bring about no other.
pub proof fn law_sample_is_contiguous<D>(
    before: RecorderView<D>,
    size: usize,
    done: D,
    requests: Seq<RequestFeatures>,
)
    requires
        0 < requests.len(),
    ensures
        requests.len() < size ==> {
            &&& before.started(size, done).delivered_all(requests) == Seq::<
                (D, Seq<RequestFeatures>),
            >::empty()
            &&& before.started(size, done).recorded_all(requests).sample == Some(
                SampleView { collected: requests, target: size, done },
            )
        },
        requests.len() >= size ==> {
            let full: int = if size == 0 {
                1
            } else {
                size as int
            };
            &&& before.started(size, done).delivered_all(requests) == seq![
                (done, requests.take(full)),
            ]
            &&& before.started(size, done).recorded_all(requests).sample is None
        },
    decreases requests.len(),
{
    let state = before.started(size, done);
    let rest = requests.drop_last();
    let last = requests.last();
    if rest.len() > 0 {
        law_sample_is_contiguous(before, size, done, rest);
    } else {
        assert(rest =~= Seq::empty());
        assert(state.recorded_all(rest) == state);
    }
    assert(rest.push(last) =~= requests);
    let s = state.recorded_all(rest);
    if requests.len() <= size || requests.len() == 1 {
        assert(state.delivered_all(rest) =~= Seq::empty());
        assert(s.sample == Some(SampleView { collected: rest, target: size, done }));
        assert(s.grown(last) == Some(SampleView { collected: requests, target: size, done }));
        if requests.len() >= size {
            assert(s.delivers(last) == Some((done, requests)));
            assert(requests.take(requests.len() as int) =~= requests);
            assert(state.delivered_all(requests) =~= seq![(done, requests)]);
        }
    } else {
        let full: int = if size == 0 {
            1
        } else {
            size as int
        };
        assert(rest.take(full) =~= requests.take(full));
        assert(s.delivers(last) is None);
    }
}

/// Recording and starting a sample do just what the laws on the recorder speak of, from an empty
/// one on: a request is recorded, and a sample that it completes is handed out; a new sample begins
/// empty, and the one in progress is handed out as it is.
pub proof fn law_recorder_hands_out_samples<D>(
    recorder: &mut Recorder<D>,
    features: RequestFeatures,
    delivered: Option<(D, Vec<RequestFeatures>)>,
)
    requires
        call_ensures(Recorder::<D>::record, (recorder, features), delivered),
    ensures
        final(recorder)@.recent == {
            let recent = old(recorder)@.recent;
            if recent.len() == 256 {
                recent.skip(1).push(features)
            } else {
                recent.push(features)
            }
        },
        match old(recorder)@.sample {
            Some(s) => if s.collected.len() + 1 >= s.target {
                &&& delivered matches Some((done, collected)) && done == s.done && collected@
                    == s.collected.push(features)
                &&& final(recorder)@.sample is None
            } else {
                &&& delivered is None
                &&& final(recorder)@.sample == Some(
                    SampleView {
                        collected: s.collected.push(features),
                        target: s.target,
                        done: s.done,
                    },
                )
            },
            None => delivered is None && final(recorder)@.sample is None,
        },
{
}

/// Starting a sample leaves the recent requests alone, and hands out the sample in progress, if
/// there is one; a new recorder has seen nothing.
pub proof fn law_samples_are_started<D>(
    recorder: &mut Recorder<D>,
    size: usize,
    done: D,
    flushed: Option<(D, Vec<RequestFeatures>)>,
    fresh: Recorder<D>,
)
    requires
        call_ensures(Recorder::<D>::start_sample, (recorder, size, done), flushed),
        call_ensures(Recorder::<D>::new, (), fresh),
    ensures
        final(recorder)@.recent == old(recorder)@.recent,
        final(recorder)@.sample == Some(
            SampleView { collected: Seq::<RequestFeatures>::empty(), target: size, done },
        ),
        match old(recorder)@.sample {
            Some(s) => flushed matches Some((to, collected)) && to == s.done && collected@
                == s.collected,
            None => flushed is None,
        },
        fresh@.recent.len() == 0,
        fresh@.sample is None,
{
}

} // verus!
