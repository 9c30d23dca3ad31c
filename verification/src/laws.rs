//! The laws of the scheme, proved from the models the contracts use: a
//! member of the encrypted set recovers exactly the session key, and a
//! recipient list encrypts the same as its de-duplication.

use vstd::prelude::*;

verus! {

use vstd::arithmetic::power::{lemma_pow_adds, pow};
use crate::curve::gt_elem;
use crate::model::{dec_sum, dec_sum_from, dedup, enc_sum, enc_sum_from, ids_set,
    valid_recipient_ids};
use crate::BroadcastChannel;

/// Multiplying the encryption sum by `alpha^j` shifts each member term
/// `alpha^(n+1-i)` to `alpha^(n+1-i+j)`: the decryption sum plus — exactly
/// when `j` is a member at or beyond `lo` — the withheld power `alpha^(n+1)`.
proof fn lemma_sum_shift(alpha: int, n: int, ids: Set<int>, j: int, lo: int)
    requires
        1 <= j <= n,
        1 <= lo,
    ensures
        enc_sum_from(alpha, n, ids, lo) * pow(alpha, j as nat) == dec_sum_from(
            alpha,
            n,
            ids,
            j,
            lo,
        ) + (if ids.contains(j) && lo <= j {
            pow(alpha, (n + 1) as nat)
        } else {
            0
        }),
    decreases n + 1 - lo,
{
    let pj: int = pow(alpha, j as nat);
    if lo > n {
        assert(enc_sum_from(alpha, n, ids, lo) == 0);
        assert(dec_sum_from(alpha, n, ids, j, lo) == 0);
    } else {
        lemma_sum_shift(alpha, n, ids, j, lo + 1);
        let e1: int = enc_sum_from(alpha, n, ids, lo + 1);
        let d1: int = dec_sum_from(alpha, n, ids, j, lo + 1);
        let t: int = if ids.contains(lo) {
            pow(alpha, (n + 1 - lo) as nat)
        } else {
            0
        };
        assert(enc_sum_from(alpha, n, ids, lo) == t + e1);
        assert((t + e1) * pj == t * pj + e1 * pj) by (nonlinear_arith);
        if ids.contains(lo) {
            lemma_pow_adds(alpha, (n + 1 - lo) as nat, j as nat);
            assert(((n + 1 - lo) as nat + (j as nat)) == (n + 1 - lo + j) as nat);
            assert(t * pj == pow(alpha, (n + 1 - lo + j) as nat));
        } else {
            assert(t * pj == 0) by (nonlinear_arith)
                requires
                    t == 0,
            ;
        }
        if lo == j {
            assert(dec_sum_from(alpha, n, ids, j, lo) == d1);
        } else {
            assert(dec_sum_from(alpha, n, ids, j, lo) == (if ids.contains(lo) {
                pow(alpha, (n + 1 - lo + j) as nat)
            } else {
                0
            }) + d1);
        }
    }
}

/// Law: a recipient whose identifier `j` belongs to the encrypted member set
/// recovers exactly the session key. The first equation is the exponent
/// identity; the second says it of the group elements the contracts name:
/// what `decrypt` returns for a header that `encryption_of` explains — pair
/// exponent `kr * (gamma + enc_sum) * alpha^j` over the numerator against
/// `(gamma * alpha^j + dec_sum) * kr` under the denominator — is the session
/// key `kr * alpha^(n+1) * e(G, H)` of that same encryption.
pub proof fn lemma_member_recovers_session_key(
    alpha: int,
    gamma: int,
    kr: int,
    n: int,
    ids: Set<int>,
    j: int,
)
    requires
        1 <= j <= n,
        ids.contains(j),
    ensures
        (kr * (gamma + enc_sum(alpha, n, ids))) * pow(alpha, j as nat) - (gamma * pow(
            alpha,
            j as nat,
        ) + dec_sum(alpha, n, ids, j)) * kr == kr * pow(alpha, (n + 1) as nat),
        gt_elem(
            (kr * (gamma + enc_sum(alpha, n, ids))) * pow(alpha, j as nat) - (gamma * pow(
                alpha,
                j as nat,
            ) + dec_sum(alpha, n, ids, j)) * kr,
        ) == gt_elem(kr * pow(alpha, (n + 1) as nat)),
{
    lemma_sum_shift(alpha, n, ids, j, 1);
    let e: int = enc_sum(alpha, n, ids);
    let d: int = dec_sum(alpha, n, ids, j);
    let pj: int = pow(alpha, j as nat);
    let pn1: int = pow(alpha, (n + 1) as nat);
    assert(e * pj == d + pn1);
    assert((kr * (gamma + e)) * pj - (gamma * pj + d) * kr == kr * pn1) by (nonlinear_arith)
        requires
            e * pj == d + pn1,
    ;
}

/// Law: decryption inverts encryption for every member. For a channel and a
/// recipient issued under trapdoors `alpha`, `gamma`, and outputs `out` that
/// are an encryption to the members of `s` under scalar `kr`, the value that
/// the contract of `decrypt` pins down for the header `(out.0, out.1)` — the
/// pairing exponents `kr * (gamma + enc_sum) * alpha^j` over the numerator
/// and `(gamma * alpha^j + dec_sum) * kr` under the denominator — is exactly
/// the session key `out.2`, whenever the recipient's identifier `j` is a
/// member of `s`.
pub proof fn lemma_decrypt_inverts_encrypt(
    channel: BroadcastChannel,
    recipient: crate::Recipient,
    s: Seq<usize>,
    out: (crate::curve::G1Point, crate::curve::G2Point, crate::curve::GtElement),
    kr: int,
    alpha: int,
    gamma: int,
)
    requires
        channel.models(alpha, gamma),
        recipient.models(alpha, gamma),
        1 <= recipient.id() <= channel.n(),
        ids_set(s).contains(recipient.id()),
        channel.encryption_of(s, out, kr),
    ensures
        out.0 == crate::curve::g1_elem(kr * (gamma + enc_sum(alpha, channel.n(), ids_set(s)))),
        out.1 == crate::curve::g2_elem(kr),
        gt_elem(
            (kr * (gamma + enc_sum(alpha, channel.n(), ids_set(s)))) * pow(
                alpha,
                recipient.id() as nat,
            ) - (gamma * pow(alpha, recipient.id() as nat) + dec_sum(
                alpha,
                channel.n(),
                ids_set(s),
                recipient.id(),
            )) * kr,
        ) == out.2,
{
    lemma_member_recovers_session_key(
        alpha,
        gamma,
        kr,
        channel.n(),
        ids_set(s),
        recipient.id(),
    );
}

/// Appending one entry to a list adds exactly that identifier to the set of
/// members.
proof fn lemma_ids_set_push(q: Seq<usize>, x: usize)
    ensures
        ids_set(q.push(x)) == ids_set(q).insert(x as int),
{
    assert forall|i: int| ids_set(q.push(x)).contains(i) implies ids_set(q).insert(
        x as int,
    ).contains(i) by {
        let idx = choose|idx: int| 0 <= idx < q.push(x).len() && q.push(x)[idx] as int == i;
        if idx < q.len() {
            assert(q[idx] as int == i);
        } else {
            assert(q.push(x)[idx] == x);
        }
    }
    assert forall|i: int| ids_set(q).insert(x as int).contains(i) implies ids_set(
        q.push(x),
    ).contains(i) by {
        if i == x as int {
            assert(q.push(x)[q.len() as int] as int == i);
        } else {
            let idx = choose|idx: int| 0 <= idx < q.len() && q[idx] as int == i;
            assert(q.push(x)[idx] as int == i);
        }
    }
    assert(ids_set(q.push(x)) =~= ids_set(q).insert(x as int));
}

/// De-duplicating a list keeps exactly the set of members.
pub proof fn lemma_dedup_same_members(s: Seq<usize>)
    ensures
        ids_set(dedup(s)) == ids_set(s),
    decreases s.len(),
{
    if s.len() == 0 {
        assert(dedup(s) == s);
    } else {
        let q = s.drop_last();
        let x = s.last();
        lemma_dedup_same_members(q);
        assert(s == q.push(x));
        lemma_ids_set_push(q, x);
        if dedup(q).contains(x) {
            let idx = choose|idx: int| 0 <= idx < dedup(q).len() && dedup(q)[idx] == x;
            assert(dedup(q)[idx] as int == x as int);
            assert(ids_set(dedup(q)).contains(x as int));
            assert(ids_set(q).insert(x as int) =~= ids_set(q));
        } else {
            lemma_ids_set_push(dedup(q), x);
        }
    }
}

/// De-duplication does not change whether a list is empty.
proof fn lemma_dedup_same_emptiness(s: Seq<usize>)
    ensures
        dedup(s).len() == 0 <==> s.len() == 0,
    decreases s.len(),
{
    if s.len() > 0 {
        lemma_dedup_same_emptiness(s.drop_last());
        if dedup(s.drop_last()).contains(s.last()) {
            assert(dedup(s.drop_last()).len() > 0);
        }
    }
}

/// The entries of a list all lie in `[1, n]` exactly when its members do.
proof fn lemma_range_iff_members(s: Seq<usize>, n: int)
    ensures
        (forall|t: int| 0 <= t < s.len() ==> 1 <= #[trigger] s[t] <= n) <==> (forall|i: int|
            #[trigger] ids_set(s).contains(i) ==> 1 <= i <= n),
{
    if forall|t: int| 0 <= t < s.len() ==> 1 <= #[trigger] s[t] <= n {
        assert forall|i: int| #[trigger] ids_set(s).contains(i) implies 1 <= i <= n by {
            let idx = choose|idx: int| 0 <= idx < s.len() && s[idx] as int == i;
            assert(1 <= s[idx] <= n);
        }
    }
    if forall|i: int| #[trigger] ids_set(s).contains(i) ==> 1 <= i <= n {
        assert forall|t: int| 0 <= t < s.len() implies 1 <= #[trigger] s[t] <= n by {
            assert(ids_set(s).contains(s[t] as int));
        }
    }
}

/// Law: a recipient list and its de-duplication are interchangeable at
/// encryption. They are valid for the same channels, and — the contracts of
/// `encrypt_with_key` and `encrypt` speaking of the list only through its
/// member set — the same outputs are an encryption of one as of the other,
/// for every scalar representative `kr`.
pub proof fn lemma_encrypt_dedup_equivalent(
    channel: BroadcastChannel,
    s: Seq<usize>,
    out: (crate::curve::G1Point, crate::curve::G2Point, crate::curve::GtElement),
    kr: int,
)
    ensures
        valid_recipient_ids(dedup(s), channel.n()) <==> valid_recipient_ids(s, channel.n()),
        channel.encryption_of(dedup(s), out, kr) <==> channel.encryption_of(s, out, kr),
{
    lemma_dedup_same_members(s);
    lemma_dedup_same_emptiness(s);
    lemma_range_iff_members(s, channel.n());
    lemma_range_iff_members(dedup(s), channel.n());
}

} // verus!
