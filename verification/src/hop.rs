use vstd::prelude::*;

verus! {

/// The TTL sweep never looks past this many hops.
pub const MAX_HOPS: u8 = 30;

/// Hop-distance estimate from a TTL sweep's echo replies.
///
/// `replies[t]` is the transport's signal for TTL `t + 1`: true when the
/// probe sent with that TTL drew the distinguishing (terminal-hop) response.
/// A sweep driver probes TTLs in ascending order and may stop early at the
/// first true reply; whatever prefix it collected is judged here.
///
/// The estimate is the smallest TTL within the 30-hop bound whose probe drew
/// the distinguishing response, or 0 when no TTL within the bound did. The 0
/// is a valid "not determined" outcome, never an error, and the result never
/// leaves [0, 30].
pub fn estimate_hops(replies: &Vec<bool>) -> (r: u8)
    ensures
        r <= MAX_HOPS,
        (r == 0) <==> (forall|t: int| 0 <= t < replies@.len() && t < MAX_HOPS ==> !replies@[t]),
        r > 0 ==> r as int - 1 < replies@.len() && replies@[r as int - 1] && (forall|t: int|
            0 <= t < r as int - 1 ==> !replies@[t]),
{
    let n = replies.len();
    let mut t: usize = 0;
    while t < n && t < 30
        invariant
            n == replies@.len(),
            t <= n,
            t <= 30,
            forall|k: int| 0 <= k < t ==> !replies@[k],
        decreases n - t,
    {
        if replies[t] {
            return (t + 1) as u8;
        }
        t = t + 1;
    }
    0
}

} // verus!
