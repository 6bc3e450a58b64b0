//! The prefetch worker's logic: folding a resource stream into one buffer.
//!
//! A prefetcher opens a load against the resource service and receives
//! `Payload` frames followed by one `Done`. The receiving sits with the
//! driver; the assembly of the frames into the reported result is here.

use vstd::prelude::*;

verus! {

/// One frame of a resource load stream, as the resource service sends them:
/// any number of `Payload`s, then exactly one `Done`.
pub enum ProgressMsg {
    /// A chunk of the body, in arrival order.
    Payload(Vec<u8>),
    /// End of the stream: the load succeeded or failed.
    Done(Result<(), ()>),
}

/// Mathematical value of a [`ProgressMsg`].
pub enum ProgressModel {
    Payload(Seq<u8>),
    Done(Result<(), ()>),
}

impl View for ProgressMsg {
    type V = ProgressModel;

    open spec fn view(&self) -> ProgressModel {
        match self {
            ProgressMsg::Payload(bytes) => ProgressModel::Payload(bytes@),
            ProgressMsg::Done(outcome) => ProgressModel::Done(*outcome),
        }
    }
}

/// The values of a sequence of frames.
pub open spec fn frames_model(frames: Seq<ProgressMsg>) -> Seq<ProgressModel> {
    frames.map_values(|f: ProgressMsg| f@)
}

/// Some frame ends the stream.
pub open spec fn has_done(frames: Seq<ProgressModel>) -> bool {
    exists|j: int| 0 <= j < frames.len() && (#[trigger] frames[j]) is Done
}

/// What a prefetcher reports for this stream: the payloads up to the first
/// `Done` concatenated in order, or a failure — partial data on a failed
/// load is discarded. Frames after the first `Done` are never read.
pub open spec fn assembled(frames: Seq<ProgressModel>) -> Result<Seq<u8>, ()>
    decreases frames.len(),
{
    if frames.len() == 0 {
        Err(())
    } else {
        match frames[0] {
            ProgressModel::Done(outcome) => match outcome {
                Ok(_) => Ok(Seq::empty()),
                Err(_) => Err(()),
            },
            ProgressModel::Payload(bytes) => match assembled(frames.drop_first()) {
                Ok(rest) => Ok(bytes + rest),
                Err(_) => Err(()),
            },
        }
    }
}

/// Concatenate the payload frames of one load stream, stopping at the first
/// `Done`: the bytes on success, and nothing on a failed load.
pub fn load_image_data(frames: Vec<ProgressMsg>) -> (r: Result<Vec<u8>, ()>)
    requires
        has_done(frames_model(frames@)),
    ensures
        crate::msgs::bytes_result_model(r) == assembled(frames_model(frames@)),
{
    let ghost model = frames_model(frames@);
    let mut buf: Vec<u8> = Vec::new();
    let mut i: usize = 0;
    proof {
        assert(model.skip(0) =~= model);
    }
    while i < frames.len()
        invariant
            i <= frames@.len(),
            model == frames_model(frames@),
            has_done(model),
            forall|j: int| 0 <= j < i ==> !((#[trigger] model[j]) is Done),
            assembled(model) == (match assembled(model.skip(i as int)) {
                Ok(rest) => Ok::<Seq<u8>, ()>(buf@ + rest),
                Err(_) => Err::<Seq<u8>, ()>(()),
            }),
        decreases frames@.len() - i,
    {
        proof {
            assert(model.skip(i as int)[0] == model[i as int]);
            assert(model.skip(i as int).drop_first() =~= model.skip(i as int + 1));
        }
        match &frames[i] {
            ProgressMsg::Payload(bytes) => {
                let ghost bufv = buf@;
                buf.extend_from_slice(bytes.as_slice());
                proof {
                    if assembled(model.skip(i as int + 1)) is Ok {
                        let rest = assembled(model.skip(i as int + 1))->Ok_0;
                        assert(bufv + (bytes@ + rest) =~= buf@ + rest);
                    }
                }
            },
            ProgressMsg::Done(outcome) => match outcome {
                Ok(_) => {
                    proof {
                        assert(assembled(model.skip(i as int)) == Ok::<Seq<u8>, ()>(Seq::empty()));
                        assert(buf@ + Seq::<u8>::empty() =~= buf@);
                    }
                    return Ok(buf);
                },
                Err(_) => {
                    return Err(());
                },
            },
        }
        i = i + 1;
    }
    proof {
        let j = choose|j: int| 0 <= j < model.len() && (#[trigger] model[j]) is Done;
        assert(false);
    }
    Err(())
}

} // verus!
