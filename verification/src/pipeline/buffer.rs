//! The buffer of captured audio waiting for the session to read it.

use vstd::prelude::*;

verus! {

/// How much 16 kHz audio is kept for a reader that falls behind: thirty seconds, more
/// than the longest segment the segmenter ever produces.
pub const PCM_BUFFER_SAMPLES: usize = 480_000;

/// The newest `limit` samples of `all`, or all of them when there are no more.
pub open spec fn newest<S>(all: Seq<S>, limit: nat) -> Seq<S> {
    if all.len() > limit {
        all.skip(all.len() - limit)
    } else {
        all
    }
}

/// Append freshly captured samples, then let the oldest go beyond `limit`: a reader
/// that stops reading must not grow memory for the length of a session.
pub fn append_bounded<S: Copy>(buffer: &mut Vec<S>, fresh: &[S], limit: usize)
    requires
        old(buffer)@.len() + fresh@.len() <= usize::MAX,
    ensures
        final(buffer)@ == newest(old(buffer)@ + fresh@, limit as nat),
{
    let ghost all = old(buffer)@ + fresh@;
    let ghost head = buffer@;
    let mut i: usize = 0;
    while i < fresh.len()
        invariant
            i <= fresh@.len(),
            head.len() + fresh@.len() <= usize::MAX,
            buffer@ == head + fresh@.take(i as int),
        decreases fresh@.len() - i,
    {
        buffer.push(fresh[i]);
        i = i + 1;
        assert(buffer@ =~= head + fresh@.take(i as int));
    }
    assert(fresh@.take(fresh@.len() as int) =~= fresh@);
    assert(buffer@ == all);
    if buffer.len() > limit {
        let excess = buffer.len() - limit;
        let mut kept: Vec<S> = Vec::new();
        let mut k: usize = excess;
        while k < buffer.len()
            invariant
                excess <= k <= buffer@.len(),
                buffer@ == all,
                kept@ == all.subrange(excess as int, k as int),
            decreases buffer@.len() - k,
        {
            kept.push(buffer[k]);
            k = k + 1;
            assert(kept@ =~= all.subrange(excess as int, k as int));
        }
        assert(all.skip(excess as int) =~= all.subrange(excess as int, all.len() as int));
        *buffer = kept;
    }
}

} // verus!
