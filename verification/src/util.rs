//! Small helpers over vectors of viewable values.

use vstd::prelude::*;

verus! {

/// Pushes onto a vector, tracked through `deep_view`.
pub fn push_deep<T: DeepView>(out: &mut Vec<T>, x: T)
    ensures
        final(out).deep_view() == old(out).deep_view().push(x.deep_view()),
{
    let ghost v0 = out@;
    let ghost d0 = out.deep_view();
    let ghost xv = x.deep_view();
    out.push(x);
    proof {
        assert forall|k: int| 0 <= k < out.deep_view().len() implies out.deep_view()[k] == d0.push(
            xv,
        )[k] by {
            assert(out.deep_view()[k] == out@[k].deep_view());
            if k < d0.len() {
                assert(out@[k] == v0[k]);
                assert(d0[k] == v0[k].deep_view());
            }
        }
        assert(out.deep_view() =~= d0.push(xv));
    }
}

} // verus!
