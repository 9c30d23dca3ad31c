//! A pairing-based broadcast encryption scheme with a constant-size header.
//!
//! A trusted dealer runs a one-time setup that publishes channel parameters
//! and hands each of `n` recipients a key pair. Anyone holding the public
//! parameters can encrypt a session key to an arbitrary subset `S` of the
//! recipients; exactly the recipients in `S` recover that key from the
//! two-point header.

use vstd::prelude::*;

pub mod curve;
pub mod laws;
pub mod model;

verus! {

use crate::curve::{
    fr_elem, fr_random, g1_add, g1_elem, g1_generator, g1_mul, g2_elem, g2_generator, g2_mul,
    gt_elem, gt_sub, pairing, G1Point, G2Point, GtElement, Scalar,
};
use crate::model::{dec_sum, dec_sum_from, enc_sum, enc_sum_from, ids_set, slot_power,
    valid_recipient_ids};
use vstd::arithmetic::power::{lemma_pow0, lemma_pow1, lemma_pow_adds, pow};

/// Whether `id` occurs among the entries of the list.
fn contains_id(s: &Vec<usize>, id: usize) -> (r: bool)
    ensures
        r == ids_set(s@).contains(id as int),
{
    let mut idx: usize = 0;
    while idx < s.len()
        invariant
            idx <= s@.len(),
            forall|t: int| 0 <= t < idx ==> s@[t] != id,
        decreases s@.len() - idx,
    {
        if s[idx] == id {
            proof {
                assert(s@[idx as int] == id);
            }
            return true;
        }
        idx = idx + 1;
    }
    false
}

/// Whether every entry of the list lies in `[1, n]`.
fn ids_in_range(s: &Vec<usize>, n: usize) -> (r: bool)
    ensures
        r == (forall|t: int| 0 <= t < s@.len() ==> 1 <= #[trigger] s@[t] <= n),
{
    let mut idx: usize = 0;
    while idx < s.len()
        invariant
            idx <= s@.len(),
            forall|t: int| 0 <= t < idx ==> 1 <= #[trigger] s@[t] <= n,
        decreases s@.len() - idx,
    {
        let id: usize = s[idx];
        if id < 1 || id > n {
            return false;
        }
        idx = idx + 1;
    }
    true
}

/// The ways a channel operation can fail.
#[derive(Clone, Copy, Debug, PartialEq, Eq)]
pub enum BroadcastError {
    /// A structurally invalid input: zero participants at setup, or an empty
    /// or out-of-range identifier set at encryption.
    InvalidParameter,
    /// The secure randomness source could not supply a scalar.
    RandomnessFailure,
    /// The curve backend reported a degenerate element for well-formed input.
    BackendFailure,
}

/// Key pair of one recipient: only the two derived curve points, never the
/// trapdoor scalars they were derived from.
#[derive(Clone, Copy)]
pub struct KeyPair {
    /// Public key `Q[i] = alpha^i * H`.
    public_key: G2Point,
    /// Private key `gamma * P[i] = (gamma * alpha^i) * G`.
    private_key: G1Point,
}

/// One recipient: an identifier in `[1, n]` owning one key pair.
#[derive(Clone, Copy)]
pub struct Recipient {
    identifier: usize,
    key_pair: KeyPair,
}

/// The public parameters of one broadcast channel: the participant count, the
/// published G1 points (the alpha powers with the withheld slot removed, and
/// `V` appended last), and exactly the two published G2 points `H, alpha * H`.
/// No field can hold a scalar, so the trapdoors cannot leak through this type.
pub struct BroadcastChannel {
    number_participants: usize,
    broadcaster_pk_g1: Vec<G1Point>,
    broadcaster_pk_g2: Vec<G2Point>,
}

impl KeyPair {
    /// The key pair of recipient `id` under trapdoors `alpha`, `gamma`.
    pub closed spec fn models(self, alpha: int, gamma: int, id: int) -> bool {
        &&& self.public_key == g2_elem(vstd::arithmetic::power::pow(alpha, id as nat))
        &&& self.private_key == g1_elem(gamma * vstd::arithmetic::power::pow(alpha, id as nat))
    }
}

impl Recipient {
    /// The recipient holds the key pair that setup derives for its identifier.
    pub closed spec fn models(self, alpha: int, gamma: int) -> bool {
        self.key_pair.models(alpha, gamma, self.identifier as int)
    }

    /// The identifier, as the specifications speak of it.
    pub closed spec fn id(self) -> int {
        self.identifier as int
    }

    /// This recipient's identifier.
    pub fn identifier(&self) -> (r: usize)
        ensures
            r as int == self.id(),
    {
        self.identifier
    }

    /// Recover the session key from a header `(ctx_0, ctx_1)` addressed to
    /// the members of `set_recipients`: pair `ctx_0` with the own public key,
    /// pair the private key plus the points `P[n+1-i+j]` (members `i` other
    /// than the own identifier `j`) with `ctx_1`, and divide in the target
    /// group. Every slot touched lies in `[2, 2n]` and differs from the
    /// withheld `n + 1` exactly because `i != j`. The call always returns a
    /// value; it equals the session key exactly when `j` is a member (see
    /// `laws`), and a non-member is not told so. Duplicates count once.
    pub fn decrypt(
        &self,
        set_recipients: &Vec<usize>,
        channel: &BroadcastChannel,
        ctx_0: &G1Point,
        ctx_1: &G2Point,
    ) -> (r: GtElement)
        requires
            channel.shaped(),
            1 <= self.id() <= channel.n(),
            forall|t: int|
                0 <= t < set_recipients@.len() ==> 1 <= #[trigger] set_recipients@[t]
                    <= channel.n(),
        ensures
            forall|alpha: int, gamma: int, c0: int, c1: int|
                #![trigger channel.models(alpha, gamma), g1_elem(c0), g2_elem(c1)]
                channel.models(alpha, gamma) && self.models(alpha, gamma) && *ctx_0 == g1_elem(c0)
                    && *ctx_1 == g2_elem(c1) ==> r == gt_elem(
                    c0 * pow(alpha, self.id() as nat) - (gamma * pow(alpha, self.id() as nat)
                        + dec_sum(
                        alpha,
                        channel.n(),
                        ids_set(set_recipients@),
                        self.id(),
                    )) * c1,
                ),
    {
        let n: usize = channel.number_participants();
        let two_n: usize = channel.published_g1_len();
        let ghost ids = ids_set(set_recipients@);
        let ghost j: int = self.id();
        let numerator = pairing(ctx_0, &self.key_pair.public_key);
        let mut acc = self.key_pair.private_key;
        proof {
            assert forall|alpha: int, gamma: int|
                channel.models(alpha, gamma) && self.models(alpha, gamma) implies acc == g1_elem(
                gamma * pow(alpha, j as nat) + dec_sum(alpha, n as int, ids, j) - dec_sum_from(
                    alpha,
                    n as int,
                    ids,
                    j,
                    1,
                ),
            ) by {
                assert(gamma * pow(alpha, j as nat) + dec_sum(alpha, n as int, ids, j)
                    - dec_sum_from(alpha, n as int, ids, j, 1) == gamma * pow(alpha, j as nat));
            }
        }
        let mut i: usize = 1;
        while i <= n
            invariant
                channel.shaped(),
                n as int == channel.n(),
                two_n as int == 2 * (n as int),
                ids == ids_set(set_recipients@),
                j == self.id(),
                1 <= j <= n as int,
                j == self.identifier as int,
                1 <= i,
                i as int <= n as int + 1,
                forall|alpha: int, gamma: int|
                    #![trigger channel.models(alpha, gamma)]
                    channel.models(alpha, gamma) && self.models(alpha, gamma) ==> acc == g1_elem(
                        gamma * pow(alpha, j as nat) + dec_sum(alpha, n as int, ids, j)
                            - dec_sum_from(alpha, n as int, ids, j, i as int),
                    ),
            decreases n as int + 1 - i,
        {
            if i != self.identifier && contains_id(set_recipients, i) {
                let slot: usize = n - i + 1 + self.identifier;
                let pt = channel.published_point(slot);
                let prev = acc;
                acc = g1_add(&prev, pt);
                proof {
                    assert forall|alpha: int, gamma: int|
                        channel.models(alpha, gamma) && self.models(alpha, gamma) implies acc
                        == g1_elem(
                        gamma * pow(alpha, j as nat) + dec_sum(alpha, n as int, ids, j)
                            - dec_sum_from(alpha, n as int, ids, j, i as int + 1),
                    ) by {
                        assert(dec_sum_from(alpha, n as int, ids, j, i as int) == pow(
                            alpha,
                            (n as int + 1 - i + j) as nat,
                        ) + dec_sum_from(alpha, n as int, ids, j, i as int + 1));
                        assert(*pt == g1_elem(pow(alpha, slot as nat)));
                        assert(slot as nat == (n as int + 1 - i + j) as nat);
                    }
                }
            } else {
                proof {
                    assert forall|alpha: int, gamma: int|
                        channel.models(alpha, gamma) && self.models(alpha, gamma) implies acc
                        == g1_elem(
                        gamma * pow(alpha, j as nat) + dec_sum(alpha, n as int, ids, j)
                            - dec_sum_from(alpha, n as int, ids, j, i as int + 1),
                    ) by {
                        assert(dec_sum_from(alpha, n as int, ids, j, i as int) == dec_sum_from(
                            alpha,
                            n as int,
                            ids,
                            j,
                            i as int + 1,
                        ));
                    }
                }
            }
            i = i + 1;
        }
        let denominator = pairing(&acc, ctx_1);
        let result = gt_sub(&numerator, &denominator);
        proof {
            assert forall|alpha: int, gamma: int, c0: int, c1: int|
                channel.models(alpha, gamma) && self.models(alpha, gamma) && *ctx_0 == g1_elem(c0)
                    && *ctx_1 == g2_elem(c1) implies result == gt_elem(
                c0 * pow(alpha, j as nat) - (gamma * pow(alpha, j as nat) + dec_sum(
                    alpha,
                    channel.n(),
                    ids,
                    j,
                )) * c1,
            ) by {
                assert(dec_sum_from(alpha, n as int, ids, j, n as int + 1) == 0);
                assert(acc == g1_elem(
                    gamma * pow(alpha, j as nat) + dec_sum(alpha, n as int, ids, j),
                ));
                assert(numerator == gt_elem(c0 * pow(alpha, j as nat)));
                assert(denominator == gt_elem(
                    (gamma * pow(alpha, j as nat) + dec_sum(alpha, n as int, ids, j)) * c1,
                ));
            }
        }
        result
    }
}

impl BroadcastChannel {
    /// The published sequences have the one shape setup ever produces,
    /// whatever the sampled trapdoors were: `2 * n` G1 points (the `2n - 1`
    /// alpha powers that remain once slot `n + 1` is withheld, then `V`)
    /// and exactly two G2 points.
    pub closed spec fn shaped(self) -> bool {
        &&& self.number_participants >= 1
        &&& self.broadcaster_pk_g1@.len() == 2 * (self.number_participants as int)
        &&& self.broadcaster_pk_g2@.len() == 2
    }

    /// The published points are exactly the prescribed powers of `alpha`
    /// (with `V = gamma * G` appended) for trapdoor representatives
    /// `alpha`, `gamma`.
    pub closed spec fn models(self, alpha: int, gamma: int) -> bool {
        let n: int = self.number_participants as int;
        &&& self.shaped()
        &&& forall|idx: int|
            0 <= idx < 2 * n - 1 ==> self.broadcaster_pk_g1@[idx] == g1_elem(
                vstd::arithmetic::power::pow(alpha, crate::model::slot_power(n, idx) as nat),
            )
        &&& self.broadcaster_pk_g1@[2 * n - 1] == g1_elem(gamma)
        &&& self.broadcaster_pk_g2@[0] == g2_elem(1)
        &&& self.broadcaster_pk_g2@[1] == g2_elem(alpha)
    }

    /// The participant count, as the specifications speak of it.
    pub closed spec fn n(self) -> int {
        self.number_participants as int
    }

    /// The length of the published G1 sequence.
    pub closed spec fn g1_count(self) -> int {
        self.broadcaster_pk_g1@.len() as int
    }

    /// The length of the published G2 sequence.
    pub closed spec fn g2_count(self) -> int {
        self.broadcaster_pk_g2@.len() as int
    }

    /// Number of participants this channel was set up for.
    pub fn number_participants(&self) -> (r: usize)
        ensures
            r as int == self.n(),
    {
        self.number_participants
    }

    /// How many G1 points are published (the alpha powers plus `V`).
    pub fn published_g1_len(&self) -> (r: usize)
        ensures
            r as int == self.g1_count(),
    {
        self.broadcaster_pk_g1.len()
    }

    /// How many G2 points are published.
    pub fn published_g2_len(&self) -> (r: usize)
        ensures
            r as int == self.g2_count(),
    {
        self.broadcaster_pk_g2.len()
    }

    /// The outputs one encryption scalar with representative `kr` explains:
    /// for every pair of trapdoors behind this channel, the header is
    /// `(kr * (gamma + sum of alpha^(n+1-i) over the members i), kr * H)` and
    /// the session key is `kr * alpha^(n+1) * e(G, H)`. The outputs depend on
    /// the recipient list only through the set of its entries.
    pub open spec fn encryption_of(
        self,
        s: Seq<usize>,
        out: (G1Point, G2Point, GtElement),
        kr: int,
    ) -> bool {
        forall|alpha: int, gamma: int| #[trigger] self.models(alpha, gamma) ==> {
            &&& out.0 == g1_elem(kr * (gamma + enc_sum(alpha, self.n(), ids_set(s))))
            &&& out.1 == g2_elem(kr)
            &&& out.2 == gt_elem(kr * pow(alpha, (self.n() + 1) as nat))
        }
    }

    /// The published alpha-power point for logical slot `m`: every slot of
    /// `[1, 2n]` except the withheld `n + 1`, which this accessor rejects
    /// outright so that no caller can ever touch it.
    fn published_point(&self, m: usize) -> (r: &G1Point)
        requires
            self.shaped(),
            1 <= m,
            m as int <= 2 * self.n(),
            m as int != self.n() + 1,
        ensures
            forall|alpha: int, gamma: int|
                #[trigger] self.models(alpha, gamma) ==> *r == g1_elem(pow(alpha, m as nat)),
    {
        let n: usize = self.number_participants;
        if m <= n {
            let r = &self.broadcaster_pk_g1[m - 1];
            proof {
                assert forall|alpha: int, gamma: int| self.models(alpha, gamma) implies *r
                    == g1_elem(pow(alpha, m as nat)) by {
                    assert(slot_power(self.n(), m - 1) == m as int);
                }
            }
            r
        } else {
            let r = &self.broadcaster_pk_g1[m - 2];
            proof {
                assert forall|alpha: int, gamma: int| self.models(alpha, gamma) implies *r
                    == g1_elem(pow(alpha, m as nat)) by {
                    assert(slot_power(self.n(), m - 2) == m as int);
                }
            }
            r
        }
    }

    /// The appended point `V = gamma * G`, the last published G1 point.
    fn point_v(&self) -> (r: &G1Point)
        requires
            self.shaped(),
        ensures
            forall|alpha: int, gamma: int|
                #[trigger] self.models(alpha, gamma) ==> *r == g1_elem(gamma),
    {
        &self.broadcaster_pk_g1[self.broadcaster_pk_g1.len() - 1]
    }

    /// One-time setup by the trusted dealer: sample the trapdoors `alpha` and
    /// `gamma`, publish the channel parameters, and issue recipient `i` the
    /// key pair `(alpha^i * H, (gamma * alpha^i) * G)` for `i` in `[1, n]`.
    /// The trapdoors live only inside this call; the returned objects have no
    /// field that could hold a scalar. Fails exactly when `n` is zero.
    pub fn init_participants(n: usize, rng: &mut rand::rngs::ThreadRng) -> (r: Result<
        (BroadcastChannel, Vec<Recipient>),
        BroadcastError,
    >)
        requires
            n <= usize::MAX / 2,
        ensures
            r is Err <==> n == 0,
            r is Err ==> r == Err::<(BroadcastChannel, Vec<Recipient>), BroadcastError>(
                BroadcastError::InvalidParameter,
            ),
            r matches Ok((channel, recipients)) ==> {
                &&& channel.n() == n
                &&& channel.shaped()
                &&& channel.g1_count() == 2 * (n as int)
                &&& channel.g2_count() == 2
                &&& recipients@.len() == n
                &&& forall|t: int| 0 <= t < n ==> (#[trigger] recipients@[t]).id() == t + 1
                &&& exists|alpha: int, gamma: int|
                    channel.models(alpha, gamma) && (forall|t: int|
                        0 <= t < n ==> (#[trigger] recipients@[t]).models(alpha, gamma))
            },
    {
        if n == 0 {
            return Err(BroadcastError::InvalidParameter);
        }
        let generator_p = g1_generator();
        let generator_q = g2_generator();
        let alpha = fr_random(rng);
        let gamma = fr_random(rng);
        let ghost a: int = choose|x: int| alpha == fr_elem(x);
        let ghost g: int = choose|x: int| gamma == fr_elem(x);
        proof {
            lemma_pow0(a);
        }
        // The alpha-power points for the slots 1..=2n, the withheld slot
        // n + 1 excepted: it is computed only to step past it, never kept.
        let mut p_points: Vec<G1Point> = Vec::new();
        let mut counter_p = generator_p;
        let mut m: usize = 1;
        while m <= 2 * n
            invariant
                1 <= m,
                m as int <= 2 * (n as int) + 1,
                1 <= n,
                n <= usize::MAX / 2,
                alpha == fr_elem(a),
                counter_p == g1_elem(pow(a, (m - 1) as nat)),
                p_points@.len() == (if m as int <= n as int + 1 {
                    m - 1
                } else {
                    m - 2
                }),
                forall|idx: int|
                    0 <= idx < p_points@.len() ==> p_points@[idx] == g1_elem(
                        pow(a, slot_power(n as int, idx) as nat),
                    ),
            decreases 2 * (n as int) + 1 - m,
        {
            counter_p = g1_mul(&counter_p, &alpha);
            proof {
                assert(pow(a, m as nat) == pow(a, (m - 1) as nat) * a) by {
                    lemma_pow_adds(a, (m - 1) as nat, 1);
                    lemma_pow1(a);
                }
            }
            if m != n + 1 {
                proof {
                    assert(slot_power(n as int, p_points@.len() as int) == m as int);
                }
                p_points.push(counter_p);
            }
            m = m + 1;
        }
        // V = gamma * G.
        let point_v = g1_mul(&generator_p, &gamma);
        // The G2 powers Q[0..=n]; only Q[0] and Q[1] are published, the rest
        // exist transiently to hand each recipient its public key.
        let mut q_points: Vec<G2Point> = Vec::new();
        q_points.push(generator_q);
        let mut counter_q = generator_q;
        let mut i: usize = 1;
        while i <= n
            invariant
                1 <= i,
                i as int <= n as int + 1,
                1 <= n,
                n <= usize::MAX / 2,
                alpha == fr_elem(a),
                counter_q == g2_elem(pow(a, (i - 1) as nat)),
                q_points@.len() == i,
                forall|idx: int| 0 <= idx < i ==> q_points@[idx] == g2_elem(pow(a, idx as nat)),
            decreases n as int + 1 - i,
        {
            counter_q = g2_mul(&counter_q, &alpha);
            proof {
                assert(pow(a, i as nat) == pow(a, (i - 1) as nat) * a) by {
                    lemma_pow_adds(a, (i - 1) as nat, 1);
                    lemma_pow1(a);
                }
            }
            q_points.push(counter_q);
            i = i + 1;
        }
        // Recipient i gets public key Q[i] and private key gamma * P[i].
        let mut participants: Vec<Recipient> = Vec::new();
        let mut i: usize = 1;
        while i <= n
            invariant
                1 <= i,
                i as int <= n as int + 1,
                1 <= n,
                n <= usize::MAX / 2,
                gamma == fr_elem(g),
                q_points@.len() == n as int + 1,
                forall|idx: int| 0 <= idx <= n ==> q_points@[idx] == g2_elem(pow(a, idx as nat)),
                p_points@.len() == 2 * (n as int) - 1,
                forall|idx: int|
                    0 <= idx < p_points@.len() ==> p_points@[idx] == g1_elem(
                        pow(a, slot_power(n as int, idx) as nat),
                    ),
                participants@.len() == i - 1,
                forall|t: int| 0 <= t < i - 1 ==> (#[trigger] participants@[t]).id() == t + 1,
                forall|t: int| 0 <= t < i - 1 ==> (#[trigger] participants@[t]).models(a, g),
            decreases n as int + 1 - i,
        {
            let secret_key = g1_mul(&p_points[i - 1], &gamma);
            proof {
                assert(slot_power(n as int, i - 1) == i as int);
                assert(pow(a, i as nat) * g == g * pow(a, i as nat)) by (nonlinear_arith);
            }
            let key_pair = KeyPair { public_key: q_points[i], private_key: secret_key };
            participants.push(Recipient { identifier: i, key_pair });
            i = i + 1;
        }
        p_points.push(point_v);
        let mut pk_g2: Vec<G2Point> = Vec::new();
        pk_g2.push(q_points[0]);
        pk_g2.push(q_points[1]);
        let channel = BroadcastChannel {
            number_participants: n,
            broadcaster_pk_g1: p_points,
            broadcaster_pk_g2: pk_g2,
        };
        proof {
            lemma_pow0(a);
            lemma_pow1(a);
            assert(channel.models(a, g));
        }
        Ok((channel, participants))
    }

    /// Build the header and session key for the members of `set_recipients`
    /// from a given encryption scalar `k`: `C1 = k * Q[0]`,
    /// `K = e(P[n], k * Q[1])`, and `C0 = k * (V + sum of P[n+1-i] over the
    /// member identifiers i)` — every slot touched lies in `[1, n]`, so the
    /// withheld slot is never needed. Duplicate identifiers count once.
    /// Fails exactly when the list is empty or some entry lies outside
    /// `[1, n]`.
    pub fn encrypt_with_key(&self, set_recipients: &Vec<usize>, k: &Scalar) -> (r: Result<
        (G1Point, G2Point, GtElement),
        BroadcastError,
    >)
        requires
            self.shaped(),
        ensures
            r is Ok <==> valid_recipient_ids(set_recipients@, self.n()),
            r is Err ==> r == Err::<(G1Point, G2Point, GtElement), BroadcastError>(
                BroadcastError::InvalidParameter,
            ),
            forall|kr: int|
                *k == #[trigger] fr_elem(kr) ==> (r matches Ok(out) ==> self.encryption_of(
                    set_recipients@,
                    out,
                    kr,
                )),
    {
        let n: usize = self.number_participants;
        if set_recipients.len() == 0 || !ids_in_range(set_recipients, n) {
            return Err(BroadcastError::InvalidParameter);
        }
        let ghost ids = ids_set(set_recipients@);
        let c1 = g2_mul(&self.broadcaster_pk_g2[0], k);
        let k_q1 = g2_mul(&self.broadcaster_pk_g2[1], k);
        let p_n = self.published_point(n);
        let key = pairing(p_n, &k_q1);
        let mut acc = *self.point_v();
        proof {
            assert forall|alpha: int, gamma: int| self.models(alpha, gamma) implies acc
                == g1_elem(
                gamma + enc_sum(alpha, n as int, ids) - enc_sum_from(alpha, n as int, ids, 1),
            ) by {
                assert(gamma + enc_sum(alpha, n as int, ids) - enc_sum_from(
                    alpha,
                    n as int,
                    ids,
                    1,
                ) == gamma);
            }
        }
        let two_n: usize = self.published_g1_len();
        let mut i: usize = 1;
        while i <= n
            invariant
                self.shaped(),
                n == self.number_participants,
                two_n as int == 2 * (n as int),
                ids == ids_set(set_recipients@),
                1 <= i,
                i as int <= n as int + 1,
                forall|alpha: int, gamma: int|
                    #[trigger] self.models(alpha, gamma) ==> acc == g1_elem(
                        gamma + enc_sum(alpha, n as int, ids) - enc_sum_from(
                            alpha,
                            n as int,
                            ids,
                            i as int,
                        ),
                    ),
            decreases n as int + 1 - i,
        {
            if contains_id(set_recipients, i) {
                let slot: usize = n - i + 1;
                let pt = self.published_point(slot);
                let prev = acc;
                acc = g1_add(&prev, pt);
                proof {
                    assert forall|alpha: int, gamma: int| self.models(alpha, gamma) implies acc
                        == g1_elem(
                        gamma + enc_sum(alpha, n as int, ids) - enc_sum_from(
                            alpha,
                            n as int,
                            ids,
                            i as int + 1,
                        ),
                    ) by {
                        assert(enc_sum_from(alpha, n as int, ids, i as int) == pow(
                            alpha,
                            (n as int + 1 - i) as nat,
                        ) + enc_sum_from(alpha, n as int, ids, i as int + 1));
                        assert(*pt == g1_elem(pow(alpha, slot as nat)));
                        assert(slot as nat == (n as int + 1 - i) as nat);
                    }
                }
            } else {
                proof {
                    assert forall|alpha: int, gamma: int| self.models(alpha, gamma) implies acc
                        == g1_elem(
                        gamma + enc_sum(alpha, n as int, ids) - enc_sum_from(
                            alpha,
                            n as int,
                            ids,
                            i as int + 1,
                        ),
                    ) by {
                        assert(enc_sum_from(alpha, n as int, ids, i as int) == enc_sum_from(
                            alpha,
                            n as int,
                            ids,
                            i as int + 1,
                        ));
                    }
                }
            }
            i = i + 1;
        }
        let c0 = g1_mul(&acc, k);
        proof {
            assert forall|kr: int| *k == fr_elem(kr) implies self.encryption_of(
                set_recipients@,
                (c0, c1, key),
                kr,
            ) by {
                assert forall|alpha: int, gamma: int| self.models(alpha, gamma) implies {
                    &&& c0 == g1_elem(kr * (gamma + enc_sum(alpha, self.n(), ids)))
                    &&& c1 == g2_elem(kr)
                    &&& key == gt_elem(kr * pow(alpha, (self.n() + 1) as nat))
                } by {
                    assert(enc_sum_from(alpha, n as int, ids, n as int + 1) == 0);
                    let e: int = enc_sum(alpha, n as int, ids);
                    assert(acc == g1_elem(gamma + e));
                    assert((gamma + e) * kr == kr * (gamma + e)) by (nonlinear_arith);
                    assert(c0 == g1_elem(kr * (gamma + e)));
                    assert(c1 == g2_elem(1 * kr));
                    assert(pow(alpha, (n as int + 1) as nat) == pow(alpha, n as nat) * alpha) by {
                        lemma_pow_adds(alpha, n as nat, 1);
                        lemma_pow1(alpha);
                    }
                    assert(key == gt_elem(pow(alpha, n as nat) * (alpha * kr)));
                    assert(pow(alpha, n as nat) * (alpha * kr) == kr * pow(
                        alpha,
                        (n as int + 1) as nat,
                    )) by (nonlinear_arith)
                        requires
                            pow(alpha, (n as int + 1) as nat) == pow(alpha, n as nat) * alpha,
                    ;
                }
            }
        }
        Ok((c0, c1, key))
    }

    /// Encrypt a fresh session key to the members of `set_recipients`: sample
    /// the single-use scalar `k`, then build the header and key from it. The
    /// scalar is discarded when this call returns. Fails exactly when the
    /// list is empty or some entry lies outside `[1, n]`.
    pub fn encrypt(&self, set_recipients: &Vec<usize>, rng: &mut rand::rngs::ThreadRng) -> (r:
        Result<(G1Point, G2Point, GtElement), BroadcastError>)
        requires
            self.shaped(),
        ensures
            r is Ok <==> valid_recipient_ids(set_recipients@, self.n()),
            r is Err ==> r == Err::<(G1Point, G2Point, GtElement), BroadcastError>(
                BroadcastError::InvalidParameter,
            ),
            r matches Ok(out) ==> exists|kr: int|
                #[trigger] self.encryption_of(set_recipients@, out, kr),
    {
        let k = fr_random(rng);
        let ghost kr0: int = choose|x: int| k == fr_elem(x);
        let r = self.encrypt_with_key(set_recipients, &k);
        proof {
            if r is Ok {
                let out = r->Ok_0;
                assert(self.encryption_of(set_recipients@, out, kr0));
            }
        }
        r
    }
}

} // verus!
