//! Which parties sign: a choice that every party makes alike, from the
//! execution id of the signing ceremony.

use crate::bytes::{append_ascii, append_bytes, ascii_bytes, be_bytes_u16, u16_to_be};
use crate::hashing::{sha256, sha256_digest};
use vstd::prelude::*;

verus! {

/// The number that the first eight bytes of a digest spell, most significant
/// byte first.
pub open spec fn leading_number(digest: Seq<u8>) -> int {
    digest[0] as int * 0x100_0000_0000_0000 + digest[1] as int * 0x1_0000_0000_0000 + digest[2] as int
        * 0x100_0000_0000 + digest[3] as int * 0x1_0000_0000 + digest[4] as int * 0x100_0000
        + digest[5] as int * 0x1_0000 + digest[6] as int * 0x100 + digest[7] as int
}

/// What is hashed for the draw of round `round`.
pub open spec fn draw_input(execution_id: [u8; 32], round: u16) -> Seq<u8> {
    execution_id@ + be_bytes_u16(round) + ascii_bytes("dfns-signers"@)
}

/// The draws of the first `rounds` rounds of the selection that `execution_id`
/// seeds.
pub open spec fn draws_of(execution_id: [u8; 32], rounds: u16) -> Seq<u64> {
    Seq::new(
        rounds as nat,
        |i: int| leading_number(sha256_digest(draw_input(execution_id, i as u16))@) as u64,
    )
}

/// `s` with the values at `i` and `j` exchanged.
pub open spec fn exchanged(s: Seq<u16>, i: int, j: int) -> Seq<u16> {
    s.update(i, s[j]).update(j, s[i])
}

/// The parties `0..n` after `rounds` rounds: round `i` exchanges the party at
/// `i` with one at or after `i`, picked by the draw of the round.
pub open spec fn shuffled(n: u16, draws: Seq<u64>, rounds: nat) -> Seq<u16>
    decreases rounds,
{
    if rounds == 0 {
        Seq::new(n as nat, |i: int| i as u16)
    } else {
        let i = rounds - 1;
        exchanged(shuffled(n, draws, i as nat), i, i + draws[i] as int % (n - i))
    }
}

/// The `t` parties of `n` that sign, given the draws.
pub open spec fn selected(n: u16, t: u16, draws: Seq<u64>) -> Seq<u16> {
    shuffled(n, draws, t as nat).take(t as int)
}

/// The parties that sign in the ceremony `execution_id` with threshold `t`
/// among `n` parties.
pub open spec fn signers_of(execution_id: [u8; 32], n: u16, t: u16) -> Seq<u16> {
    selected(n, t, draws_of(execution_id, t))
}

/// Every round leaves each party in the list once.
pub proof fn lemma_shuffled_is_permutation(n: u16, draws: Seq<u64>, rounds: nat)
    requires
        rounds <= n,
    ensures
        shuffled(n, draws, rounds).len() == n,
        forall|i: int| 0 <= i < n ==> #[trigger] shuffled(n, draws, rounds)[i] < n,
        forall|i: int, j: int|
            0 <= i < j < n ==> #[trigger] shuffled(n, draws, rounds)[i] != #[trigger] shuffled(
                n,
                draws,
                rounds,
            )[j],
    decreases rounds,
{
    if rounds > 0 {
        let k = (rounds - 1) as nat;
        lemma_shuffled_is_permutation(n, draws, k);
        let before = shuffled(n, draws, k);
        let other = k + draws[k as int] as int % (n - k);
        assert(k <= other < n);
        let now = shuffled(n, draws, rounds);
        assert(now == exchanged(before, k as int, other));
        assert forall|i: int, j: int| 0 <= i < j < n implies #[trigger] now[i] != #[trigger] now[j] by {
            let from_i = if i == k {
                other
            } else if i == other {
                k as int
            } else {
                i
            };
            let from_j = if j == k {
                other
            } else if j == other {
                k as int
            } else {
                j
            };
            assert(now[i] == before[from_i]);
            assert(now[j] == before[from_j]);
            if from_i < from_j {
                assert(before[from_i] != before[from_j]);
            } else {
                assert(before[from_j] != before[from_i]);
            }
        }
        assert forall|i: int| 0 <= i < n implies #[trigger] now[i] < n by {
            let from_i = if i == k {
                other
            } else if i == other {
                k as int
            } else {
                i
            };
            assert(now[i] == before[from_i]);
        }
    }
}

/// The parties that sign are `t` different parties of the committee, and
/// depend on the number of parties, the threshold and the draws alone.
pub proof fn lemma_selected_are_distinct_parties(n: u16, t: u16, draws: Seq<u64>)
    requires
        t <= n,
    ensures
        selected(n, t, draws).len() == t,
        forall|i: int| 0 <= i < t ==> #[trigger] selected(n, t, draws)[i] < n,
        forall|i: int, j: int|
            0 <= i < j < t ==> #[trigger] selected(n, t, draws)[i] != #[trigger] selected(
                n,
                t,
                draws,
            )[j],
{
    lemma_shuffled_is_permutation(n, draws, t as nat);
    let all = shuffled(n, draws, t as nat);
    assert forall|i: int, j: int| 0 <= i < j < t implies #[trigger] selected(n, t, draws)[i]
        != #[trigger] selected(n, t, draws)[j] by {
        assert(all[i] != all[j]);
    }
    assert forall|i: int| 0 <= i < t implies #[trigger] selected(n, t, draws)[i] < n by {
        assert(all[i] < n);
    }
}

/// The `t` parties of `n` that sign, given one draw for each of them; none if
/// the threshold exceeds the number of parties or the draws are not `t`.
pub fn select_with_draws(n: u16, t: u16, draws: &Vec<u64>) -> (out: Option<Vec<u16>>)
    ensures
        match out {
            Some(signers) => t <= n && draws@.len() == t && signers@ == selected(n, t, draws@),
            None => t > n || draws@.len() != t,
        },
{
    if t > n || draws.len() != t as usize {
        return None;
    }
    let mut parties: Vec<u16> = Vec::new();
    let mut p: u16 = 0;
    while p < n
        invariant
            p <= n,
            parties@.len() == p,
            forall|i: int| 0 <= i < p ==> parties@[i] == i as u16,
        decreases n - p,
    {
        parties.push(p);
        p += 1;
    }
    assert(parties@ =~= shuffled(n, draws@, 0));
    let mut round: u16 = 0;
    while round < t
        invariant
            round <= t <= n,
            draws@.len() == t,
            parties@ == shuffled(n, draws@, round as nat),
        decreases t - round,
    {
        proof {
            lemma_shuffled_is_permutation(n, draws@, round as nat);
        }
        let span: u64 = (n - round) as u64;
        let other: usize = round as usize + (draws[round as usize] % span) as usize;
        let here = parties[round as usize];
        let there = parties[other];
        parties[round as usize] = there;
        parties[other] = here;
        assert(parties@ =~= shuffled(n, draws@, round as nat + 1));
        round += 1;
    }
    proof {
        lemma_shuffled_is_permutation(n, draws@, t as nat);
    }
    parties.truncate(t as usize);
    assert(parties@ =~= selected(n, t, draws@));
    Some(parties)
}

/// The draw that a digest gives: the number that its first eight bytes spell,
/// most significant byte first.
pub fn draw_from(digest: &[u8; 32]) -> (out: u64)
    ensures
        out == leading_number(digest@),
{
    digest[0] as u64 * 0x100_0000_0000_0000 + digest[1] as u64 * 0x1_0000_0000_0000 + digest[2] as u64
        * 0x100_0000_0000 + digest[3] as u64 * 0x1_0000_0000 + digest[4] as u64 * 0x100_0000
        + digest[5] as u64 * 0x1_0000 + digest[6] as u64 * 0x100 + digest[7] as u64
}

/// The parties that sign in the ceremony `execution_id`: `t` different
/// parties of `n`, the same for whoever computes them; none if the threshold
/// exceeds the number of parties.
pub fn select_signers(execution_id: &[u8; 32], n: u16, t: u16) -> (out: Option<Vec<u16>>)
    ensures
        match out {
            Some(signers) => t <= n && signers@ == signers_of(*execution_id, n, t),
            None => t > n,
        },
{
    let mut draws: Vec<u64> = Vec::new();
    let mut round: u16 = 0;
    while round < t
        invariant
            round <= t,
            draws@.len() == round,
            forall|i: int|
                0 <= i < round ==> draws@[i] == leading_number(
                    sha256_digest(draw_input(*execution_id, i as u16))@,
                ) as u64,
        decreases t - round,
    {
        let mut input: Vec<u8> = Vec::new();
        let round_be = u16_to_be(round);
        append_bytes(&mut input, execution_id.as_slice());
        append_bytes(&mut input, round_be.as_slice());
        proof {
            reveal_strlit("dfns-signers");
        }
        append_ascii(&mut input, "dfns-signers");
        assert(input@ =~= draw_input(*execution_id, round));
        let digest = sha256(input.as_slice());
        draws.push(draw_from(&digest));
        round += 1;
    }
    assert(draws@ =~= draws_of(*execution_id, t));
    select_with_draws(n, t, &draws)
}

/// Index of the first signer at or after `from` that is `party`; the number
/// of signers if there is none.
pub open spec fn place_of(signers: Seq<u16>, party: u16, from: int) -> int
    decreases signers.len() - from,
{
    if from < 0 || from >= signers.len() {
        signers.len() as int
    } else if signers[from] == party {
        from
    } else {
        place_of(signers, party, from + 1)
    }
}

/// The place of `party` among the signers, if it signs.
pub fn signer_position(signers: &Vec<u16>, party: u16) -> (out: Option<u16>)
    requires
        signers@.len() <= u16::MAX,
    ensures
        match out {
            Some(place) => place == place_of(signers@, party, 0) && place < signers@.len()
                && signers@[place as int] == party,
            None => place_of(signers@, party, 0) == signers@.len() && forall|j: int|
                0 <= j < signers@.len() ==> signers@[j] != party,
        },
{
    let mut i: usize = 0;
    while i < signers.len()
        invariant
            i <= signers@.len() <= u16::MAX,
            place_of(signers@, party, 0) == place_of(signers@, party, i as int),
            forall|j: int| 0 <= j < i ==> signers@[j] != party,
        decreases signers@.len() - i,
    {
        if signers[i] == party {
            return Some(i as u16);
        }
        i += 1;
    }
    None
}

} // verus!
