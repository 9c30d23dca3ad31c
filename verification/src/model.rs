//! The mathematical model of the scheme: the exponents (discrete logarithms)
//! of the points that setup publishes and that encryption and decryption
//! combine, as functions of the trapdoor representatives and the member set.

use vstd::prelude::*;

verus! {

use vstd::arithmetic::power::pow;

/// The set of identifiers a list of ids denotes: order and multiplicity of
/// the list do not matter.
pub open spec fn ids_set(s: Seq<usize>) -> Set<int> {
    Set::new(|i: int| exists|idx: int| 0 <= idx < s.len() && s[idx] as int == i)
}

/// Every entry of the list is an identifier of the channel, and there is at
/// least one: the condition under which encryption succeeds.
pub open spec fn valid_recipient_ids(s: Seq<usize>, n: int) -> bool {
    &&& s.len() > 0
    &&& forall|idx: int| 0 <= idx < s.len() ==> 1 <= #[trigger] s[idx] <= n
}

/// The list with duplicate entries dropped: each identifier keeps its first
/// occurrence only.
pub open spec fn dedup(s: Seq<usize>) -> Seq<usize>
    decreases s.len(),
{
    if s.len() == 0 {
        Seq::empty()
    } else if dedup(s.drop_last()).contains(s.last()) {
        dedup(s.drop_last())
    } else {
        dedup(s.drop_last()).push(s.last())
    }
}

/// The logical alpha-power held at index `idx` of the published G1 sequence:
/// index `m - 1` holds power `m` for `m <= n`, and index `m - 2` holds power
/// `m` for `m >= n + 2`, the withheld power `n + 1` appearing nowhere.
pub open spec fn slot_power(n: int, idx: int) -> int {
    if idx < n {
        idx + 1
    } else {
        idx + 2
    }
}

/// Sum over the members `i` of `ids` with `lo <= i <= n` of `alpha^(n+1-i)`:
/// the exponent of the aggregate point an encryptor adds to `V`.
pub open spec fn enc_sum_from(alpha: int, n: int, ids: Set<int>, lo: int) -> int
    decreases n + 1 - lo,
{
    if lo > n {
        0
    } else {
        (if ids.contains(lo) {
            pow(alpha, (n + 1 - lo) as nat)
        } else {
            0
        }) + enc_sum_from(alpha, n, ids, lo + 1)
    }
}

/// Sum over all members `i` of `ids` in `[1, n]` of `alpha^(n+1-i)`.
pub open spec fn enc_sum(alpha: int, n: int, ids: Set<int>) -> int {
    enc_sum_from(alpha, n, ids, 1)
}

/// Sum over the members `i` of `ids` with `lo <= i <= n` and `i != j` of
/// `alpha^(n+1-i+j)`: the exponent of the aggregate point recipient `j` adds
/// to its private key while decrypting.
pub open spec fn dec_sum_from(alpha: int, n: int, ids: Set<int>, j: int, lo: int) -> int
    decreases n + 1 - lo,
{
    if lo > n {
        0
    } else {
        (if ids.contains(lo) && lo != j {
            pow(alpha, (n + 1 - lo + j) as nat)
        } else {
            0
        }) + dec_sum_from(alpha, n, ids, j, lo + 1)
    }
}

/// Sum over all members `i` of `ids` in `[1, n]` other than `j` of
/// `alpha^(n+1-i+j)`.
pub open spec fn dec_sum(alpha: int, n: int, ids: Set<int>, j: int) -> int {
    dec_sum_from(alpha, n, ids, j, 1)
}

} // verus!
