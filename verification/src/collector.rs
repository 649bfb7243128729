//! The Collector-side reconciliation of the two aggregators' output shares.
//!
//! After the Collector has opened both encrypted output shares, the final
//! aggregate is the element-wise field sum of the two decoded share
//! vectors; the two shares must agree on how many reports contributed.

use vstd::prelude::*;
use crate::errors::Error;
use crate::fieldvec::{dec_share, merge_into, merge_spec, decode_share};
use crate::messages::OutputShare;

verus! {

/// Combines the Leader's and the Helper's decrypted output shares into the
/// final aggregate vector. Fails with `LengthMismatch`, carrying the two
/// mismatching values, iff the shares disagree on the contribution count
/// or on their length, and with `PrioField` iff either sum is not a valid
/// field-element encoding.
pub fn reconcile_output_shares(leader_share: &OutputShare, helper_share: &OutputShare) -> (r:
    Result<Vec<u128>, Error>)
    ensures
        match r {
            Ok(v) => {
                &&& leader_share.contributions == helper_share.contributions
                &&& dec_share(leader_share.sum@) matches Some(l)
                &&& dec_share(helper_share.sum@) matches Some(h)
                &&& dec_share(leader_share.sum@).unwrap().len() == dec_share(
                    helper_share.sum@,
                ).unwrap().len()
                &&& v@ == merge_spec(
                    dec_share(leader_share.sum@).unwrap(),
                    dec_share(helper_share.sum@).unwrap(),
                )
            },
            Err(Error::LengthMismatch(a, b)) => {
                ||| (leader_share.contributions != helper_share.contributions && a
                    == leader_share.contributions && b == helper_share.contributions)
                ||| {
                    &&& dec_share(leader_share.sum@) matches Some(l)
                    &&& dec_share(helper_share.sum@) matches Some(h)
                    &&& l.len() != h.len()
                    &&& leader_share.contributions == helper_share.contributions
                }
            },
            Err(Error::PrioField) => {
                &&& leader_share.contributions == helper_share.contributions
                &&& (dec_share(leader_share.sum@) is None || dec_share(helper_share.sum@) is None)
            },
            Err(_) => false,
        },
{
    if leader_share.contributions != helper_share.contributions {
        return Err(Error::LengthMismatch(leader_share.contributions, helper_share.contributions));
    }
    let mut leader_vec = match decode_share(&leader_share.sum) {
        Some(v) => v,
        None => {
            return Err(Error::PrioField);
        },
    };
    let helper_vec = match decode_share(&helper_share.sum) {
        Some(v) => v,
        None => {
            return Err(Error::PrioField);
        },
    };
    if leader_vec.len() != helper_vec.len() {
        return Err(Error::LengthMismatch(leader_vec.len() as u64, helper_vec.len() as u64));
    }
    let ok = merge_into(&mut leader_vec, &helper_vec);
    assert(ok);
    Ok(leader_vec)
}

} // verus!
