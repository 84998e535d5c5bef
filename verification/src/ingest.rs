use vstd::prelude::*;

use crate::model::Request;

verus! {

/// The requests one polled batch hands downstream: each message's
/// decoded requests in order, messages whose bytes did not decode
/// dropped.
pub open spec fn flattened(batches: Seq<Option<Vec<Request>>>) -> Seq<Request>
    decreases batches.len(),
{
    if batches.len() == 0 {
        Seq::empty()
    } else {
        flattened(batches.drop_last()) + (match batches.last() {
            Some(reqs) => reqs@,
            None => Seq::empty(),
        })
    }
}

/// Flatten one batch of decoded messages, in order, dropping the
/// messages that did not decode.
pub fn flatten_decoded(batches: Vec<Option<Vec<Request>>>) -> (out: Vec<Request>)
    ensures
        out@ == flattened(batches@),
{
    let ghost all = batches@;
    let mut out: Vec<Request> = Vec::new();
    let mut rest = batches;
    let ghost mut i: int = 0;
    proof {
        assert(all.take(0) =~= Seq::<Option<Vec<Request>>>::empty());
    }
    while rest.len() > 0
        invariant
            0 <= i,
            i + rest@.len() == all.len(),
            rest@ == all.skip(i),
            out@ == flattened(all.take(i)),
        decreases rest@.len(),
    {
        proof {
            assert(all.skip(i)[0] == all[i]);
            assert(all.skip(i).drop_first() =~= all.skip(i + 1));
            assert(all.take(i + 1).drop_last() =~= all.take(i));
            assert(all.take(i + 1).last() == all[i]);
        }
        let msg = rest.remove(0);
        match msg {
            Some(mut reqs) => {
                let ghost before = out@;
                let ghost decoded = reqs@;
                let ghost mut j: int = 0;
                proof {
                    assert(decoded.take(0) =~= Seq::<Request>::empty());
                    assert(before + decoded.take(0) =~= before);
                }
                while reqs.len() > 0
                    invariant
                        0 <= j,
                        j + reqs@.len() == decoded.len(),
                        reqs@ == decoded.skip(j),
                        out@ == before + decoded.take(j),
                    decreases reqs@.len(),
                {
                    proof {
                        assert(decoded.skip(j)[0] == decoded[j]);
                        assert(decoded.skip(j).drop_first() =~= decoded.skip(j + 1));
                        assert((before + decoded.take(j)).push(decoded[j]) =~= before
                            + decoded.take(j + 1));
                    }
                    let req = reqs.remove(0);
                    out.push(req);
                    proof {
                        j = j + 1;
                    }
                }
                proof {
                    assert(decoded.take(j) =~= decoded);
                }
            },
            None => {},
        }
        proof {
            i = i + 1;
        }
    }
    proof {
        assert(all.take(i) =~= all);
    }
    out
}

} // verus!
