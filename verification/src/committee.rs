//! The committee of a ceremony: the operators of a blueprint in their agreed
//! order, and the index that each party has in it.

use crate::bytes::bytes_equal;
use crate::error::{ContextError, Error};
use vstd::prelude::*;

verus! {

/// The account of an operator.
#[derive(Clone, Copy, Debug, PartialEq, Eq)]
pub struct AccountId {
    pub bytes: [u8; 32],
}

/// An ECDSA public key on secp256k1, as a compressed SEC1 point.
#[derive(Clone, Copy, Debug, PartialEq, Eq)]
pub struct EcdsaPublic {
    pub bytes: [u8; 33],
}

/// An operator as the chain lists it: the key is absent when the operator has
/// registered none.
#[derive(Clone, Copy, Debug, PartialEq, Eq)]
pub struct Operator {
    pub account: AccountId,
    pub key: Option<EcdsaPublic>,
}

/// A party of the committee.
#[derive(Clone, Copy, Debug, PartialEq, Eq)]
pub struct Member {
    pub account: AccountId,
    pub key: EcdsaPublic,
}

/// Lexicographic order on byte strings: the first byte that differs decides,
/// and a proper prefix comes first.
pub open spec fn lex_less(a: Seq<u8>, b: Seq<u8>) -> bool
    decreases a.len(),
{
    if b.len() == 0 {
        false
    } else if a.len() == 0 {
        true
    } else if a[0] != b[0] {
        a[0] < b[0]
    } else {
        lex_less(a.drop_first(), b.drop_first())
    }
}

/// The order in which accounts are listed in a committee.
pub open spec fn account_less(a: AccountId, b: AccountId) -> bool {
    lex_less(a.bytes@, b.bytes@)
}

/// No byte string comes before itself.
pub proof fn lemma_lex_irreflexive(a: Seq<u8>)
    ensures
        !lex_less(a, a),
    decreases a.len(),
{
    if a.len() > 0 {
        lemma_lex_irreflexive(a.drop_first());
    }
}

/// The lexicographic order is transitive.
pub proof fn lemma_lex_transitive(a: Seq<u8>, b: Seq<u8>, c: Seq<u8>)
    requires
        lex_less(a, b),
        lex_less(b, c),
    ensures
        lex_less(a, c),
    decreases a.len(),
{
    if a.len() > 0 && b.len() > 0 && c.len() > 0 && a[0] == b[0] && b[0] == c[0] {
        lemma_lex_transitive(a.drop_first(), b.drop_first(), c.drop_first());
    }
}

/// Of two different byte strings one comes before the other.
pub proof fn lemma_lex_total(a: Seq<u8>, b: Seq<u8>)
    ensures
        a == b || lex_less(a, b) || lex_less(b, a),
    decreases a.len(),
{
    if a.len() == 0 || b.len() == 0 {
        if a.len() == 0 && b.len() == 0 {
            assert(a =~= b);
        }
    } else if a[0] == b[0] {
        lemma_lex_total(a.drop_first(), b.drop_first());
        if a.drop_first() == b.drop_first() {
            assert(a =~= seq![a[0]] + a.drop_first());
            assert(b =~= seq![b[0]] + b.drop_first());
        }
    }
}

/// Two strings that agree on their first `k` bytes compare as their
/// remainders do.
proof fn lemma_lex_skip(a: Seq<u8>, b: Seq<u8>, k: int)
    requires
        0 <= k <= a.len(),
        k <= b.len(),
        forall|j: int| 0 <= j < k ==> a[j] == b[j],
    ensures
        lex_less(a, b) == lex_less(a.skip(k), b.skip(k)),
    decreases k,
{
    if k == 0 {
        assert(a.skip(0) =~= a);
        assert(b.skip(0) =~= b);
    } else {
        lemma_lex_skip(a, b, k - 1);
        let x = a.skip(k - 1);
        let y = b.skip(k - 1);
        assert(x[0] == a[k - 1] && y[0] == b[k - 1]);
        assert(x.drop_first() =~= a.skip(k));
        assert(y.drop_first() =~= b.skip(k));
    }
}

/// Whether two accounts are the same.
pub fn same_account(a: &AccountId, b: &AccountId) -> (same: bool)
    ensures
        same == (*a == *b),
{
    let same = bytes_equal(a.bytes.as_slice(), b.bytes.as_slice());
    proof {
        if same {
            assert(a.bytes =~= b.bytes);
        }
    }
    same
}

/// Whether two keys are the same.
pub fn same_key(a: &EcdsaPublic, b: &EcdsaPublic) -> (same: bool)
    ensures
        same == (*a == *b),
{
    let same = bytes_equal(a.bytes.as_slice(), b.bytes.as_slice());
    proof {
        if same {
            assert(a.bytes =~= b.bytes);
        }
    }
    same
}

/// Whether `a` is listed before `b`.
pub fn account_before(a: &AccountId, b: &AccountId) -> (before: bool)
    ensures
        before == account_less(*a, *b),
{
    let mut i: usize = 0;
    while i < 32
        invariant
            i <= 32,
            forall|j: int| 0 <= j < i ==> a.bytes@[j] == b.bytes@[j],
        decreases 32 - i,
    {
        if a.bytes[i] != b.bytes[i] {
            proof {
                lemma_lex_skip(a.bytes@, b.bytes@, i as int);
            }
            return a.bytes[i] < b.bytes[i];
        }
        i += 1;
    }
    proof {
        lemma_lex_skip(a.bytes@, b.bytes@, 32);
    }
    false
}


/// The operators of a blueprint as a chain snapshot gives them: for each
/// account the key on record, where the entry listed last counts.
pub open spec fn snapshot_of(operators: Seq<Operator>) -> Map<AccountId, Option<EcdsaPublic>>
    decreases operators.len(),
{
    if operators.len() == 0 {
        Map::empty()
    } else {
        snapshot_of(operators.drop_last()).insert(operators.last().account, operators.last().key)
    }
}

/// Whether the accounts of `listing` strictly increase.
pub open spec fn sorted_by_account(listing: Seq<Operator>) -> bool {
    forall|i: int, j: int|
        0 <= i < j < listing.len() ==> account_less(
            #[trigger] listing[i].account,
            #[trigger] listing[j].account,
        )
}

/// Whether `listing` holds exactly the entries of `snapshot`, in the order of
/// their accounts.
pub open spec fn lists(listing: Seq<Operator>, snapshot: Map<AccountId, Option<EcdsaPublic>>) -> bool {
    &&& sorted_by_account(listing)
    &&& forall|i: int|
        0 <= i < listing.len() ==> snapshot.dom().contains(#[trigger] listing[i].account)
            && snapshot[listing[i].account] == listing[i].key
    &&& forall|a: AccountId|
        snapshot.dom().contains(a) ==> exists|i: int|
            0 <= i < listing.len() && #[trigger] listing[i].account == a
}

/// The entries of `snapshot` in the order of their accounts.
pub open spec fn listing_of(snapshot: Map<AccountId, Option<EcdsaPublic>>) -> Seq<Operator> {
    choose|listing: Seq<Operator>| lists(listing, snapshot)
}

/// Index of the first entry at or after `from` that has no key; the length of
/// the listing if there is none.
pub open spec fn first_keyless(listing: Seq<Operator>, from: int) -> int
    decreases listing.len() - from,
{
    if from < 0 || from >= listing.len() {
        listing.len() as int
    } else if listing[from].key is None {
        from
    } else {
        first_keyless(listing, from + 1)
    }
}

/// The parties that a listing with all keys present gives.
pub open spec fn members_of(listing: Seq<Operator>) -> Seq<Member> {
    Seq::new(
        listing.len(),
        |i: int| Member { account: listing[i].account, key: listing[i].key->Some_0 },
    )
}

/// The committee that a snapshot gives, or why it gives none: the first
/// account, in committee order, that lacks a key is reported.
pub open spec fn committee_outcome(snapshot: Map<AccountId, Option<EcdsaPublic>>) -> Result<
    Seq<Member>,
    Error,
> {
    let listing = listing_of(snapshot);
    let keyless = first_keyless(listing, 0);
    if keyless < listing.len() {
        Err(Error::Context(ContextError::MissingOperatorKey(listing[keyless].account)))
    } else if listing.len() > u16::MAX {
        Err(Error::Context(ContextError::CommitteeTooLarge))
    } else {
        Ok(members_of(listing))
    }
}

/// Two accounts with different bytes are different, and ordered.
proof fn lemma_account_order(a: AccountId, b: AccountId)
    ensures
        !account_less(a, a),
        a == b || account_less(a, b) || account_less(b, a),
{
    lemma_lex_irreflexive(a.bytes@);
    lemma_lex_total(a.bytes@, b.bytes@);
    if a.bytes@ == b.bytes@ {
        assert(a.bytes =~= b.bytes);
    }
}

/// Two listings of one snapshot agree on their first `i` entries.
proof fn lemma_listings_agree(
    x: Seq<Operator>,
    y: Seq<Operator>,
    snapshot: Map<AccountId, Option<EcdsaPublic>>,
    i: int,
)
    requires
        lists(x, snapshot),
        lists(y, snapshot),
        0 <= i <= x.len(),
    ensures
        i <= y.len(),
        forall|j: int| 0 <= j < i ==> x[j] == y[j],
    decreases i,
{
    if i > 0 {
        lemma_listings_agree(x, y, snapshot, i - 1);
        let k = i - 1;
        let a = x[k].account;
        assert(snapshot.dom().contains(a));
        let p = choose|p: int| 0 <= p < y.len() && #[trigger] y[p].account == a;
        lemma_account_order(a, a);
        if p < k {
            assert(x[p] == y[p]);
            assert(account_less(x[p].account, x[k].account));
        }
        assert(k < y.len());
        let b = y[k].account;
        assert(snapshot.dom().contains(b));
        let q = choose|q: int| 0 <= q < x.len() && #[trigger] x[q].account == b;
        lemma_account_order(b, b);
        if q < k {
            assert(x[q] == y[q]);
            assert(account_less(y[q].account, y[k].account));
        }
        if p > k {
            assert(account_less(y[k].account, y[p].account));
            if q > k {
                assert(account_less(x[k].account, x[q].account));
                lemma_lex_transitive(b.bytes@, a.bytes@, b.bytes@);
            }
        }
        assert(p == k);
        assert(x[k].key == snapshot[a]);
        assert(y[k].key == snapshot[a]);
    }
}

/// A snapshot has one listing only: whoever orders the same operators obtains
/// the same parties at the same indices.
pub proof fn lemma_listing_unique(
    x: Seq<Operator>,
    y: Seq<Operator>,
    snapshot: Map<AccountId, Option<EcdsaPublic>>,
)
    requires
        lists(x, snapshot),
        lists(y, snapshot),
    ensures
        x == y,
{
    lemma_listings_agree(x, y, snapshot, x.len() as int);
    lemma_listings_agree(y, x, snapshot, y.len() as int);
    assert(x =~= y);
}


/// `operators` with the entries at `i` and `i + 1` exchanged.
pub open spec fn exchanged(operators: Seq<Operator>, i: int) -> Seq<Operator> {
    operators.update(i, operators[i + 1]).update(i + 1, operators[i])
}

/// The order in which the chain lists two operators with different accounts
/// does not matter to the snapshot, and so not to the committee.
pub proof fn lemma_snapshot_ignores_listing_order(operators: Seq<Operator>, i: int)
    requires
        0 <= i,
        i + 1 < operators.len(),
        operators[i].account != operators[i + 1].account,
    ensures
        snapshot_of(exchanged(operators, i)) == snapshot_of(operators),
        committee_outcome(snapshot_of(exchanged(operators, i))) == committee_outcome(
            snapshot_of(operators),
        ),
    decreases operators.len(),
{
    let other = exchanged(operators, i);
    if i + 1 == operators.len() - 1 {
        let front = operators.drop_last().drop_last();
        let first = operators[i];
        let second = operators[i + 1];
        let before = snapshot_of(front);
        assert(other.drop_last().drop_last() =~= front);
        assert(other.last() == first && other.drop_last().last() == second);
        assert(operators.last() == second && operators.drop_last().last() == first);
        assert(snapshot_of(other.drop_last()) == before.insert(second.account, second.key));
        assert(snapshot_of(operators.drop_last()) == before.insert(first.account, first.key));
        assert(snapshot_of(other) == before.insert(second.account, second.key).insert(
            first.account,
            first.key,
        ));
        assert(snapshot_of(operators) == before.insert(first.account, first.key).insert(
            second.account,
            second.key,
        ));
        assert(snapshot_of(other) =~= snapshot_of(operators));
    } else {
        lemma_snapshot_ignores_listing_order(operators.drop_last(), i);
        assert(other.drop_last() =~= exchanged(operators.drop_last(), i));
        assert(other.last() == operators.last());
    }
}

/// The parties of a ceremony, in the order that gives each its index.
#[derive(Clone, Debug, PartialEq, Eq)]
pub struct Committee {
    members: Vec<Member>,
}

impl View for Committee {
    type V = Seq<Member>;

    closed spec fn view(&self) -> Seq<Member> {
        self.members@
    }
}

/// Whether the accounts of `members` strictly increase.
pub open spec fn members_sorted(members: Seq<Member>) -> bool {
    forall|i: int, j: int|
        0 <= i < j < members.len() ==> account_less(
            #[trigger] members[i].account,
            #[trigger] members[j].account,
        )
}

/// Index of the first party at or after `from` that has the account
/// `account`; the number of parties if there is none.
pub open spec fn member_index(members: Seq<Member>, account: AccountId, from: int) -> int
    decreases members.len() - from,
{
    if from < 0 || from >= members.len() {
        members.len() as int
    } else if members[from].account == account {
        from
    } else {
        member_index(members, account, from + 1)
    }
}

/// The keys of the parties, by index.
pub open spec fn keys_of(members: Seq<Member>) -> Seq<EcdsaPublic> {
    Seq::new(members.len(), |i: int| members[i].key)
}

/// Puts `op` at its place in `sorted`, looking for it from the end; an entry
/// for the same account is replaced.
fn insert_operator(
    sorted: &mut Vec<Operator>,
    op: Operator,
    Ghost(snapshot): Ghost<Map<AccountId, Option<EcdsaPublic>>>,
)
    requires
        lists(old(sorted)@, snapshot),
    ensures
        lists(final(sorted)@, snapshot.insert(op.account, op.key)),
{
    let ghost before = sorted@;
    let ghost after = snapshot.insert(op.account, op.key);
    let mut p: usize = sorted.len();
    while p > 0 && account_before(&op.account, &sorted[p - 1].account)
        invariant
            p <= sorted@.len(),
            sorted@ == before,
            forall|j: int|
                p <= j < before.len() ==> account_less(op.account, #[trigger] before[j].account),
        decreases p,
    {
        p -= 1;
    }
    if p > 0 && same_account(&sorted[p - 1].account, &op.account) {
        let at = p - 1;
        sorted[at] = op;
        proof {
            let now = sorted@;
            assert(now.len() == before.len());
            assert forall|i: int| 0 <= i < now.len() implies #[trigger] now[i].account
                == before[i].account by {}
            assert forall|i: int| 0 <= i < now.len() implies after.dom().contains(
                #[trigger] now[i].account,
            ) && after[now[i].account] == now[i].key by {
                if i != at {
                    lemma_account_order(op.account, op.account);
                    if i < at {
                        assert(account_less(before[i].account, before[at as int].account));
                    } else {
                        assert(account_less(before[at as int].account, before[i].account));
                    }
                    assert(snapshot.dom().contains(before[i].account));
                }
            }
            assert forall|a: AccountId| after.dom().contains(a) implies exists|i: int|
                0 <= i < now.len() && #[trigger] now[i].account == a by {
                if a == op.account {
                    assert(now[at as int].account == a);
                } else {
                    assert(snapshot.dom().contains(a));
                    let i = choose|i: int| 0 <= i < before.len() && #[trigger] before[i].account == a;
                    assert(now[i].account == a);
                }
            }
        }
    } else {
        proof {
            if p > 0 {
                lemma_account_order(before[p - 1].account, op.account);
            }
            assert forall|j: int| 0 <= j < p implies account_less(
                #[trigger] before[j].account,
                op.account,
            ) by {
                if j < p - 1 {
                    assert(account_less(before[j].account, before[p - 1].account));
                    lemma_lex_transitive(
                        before[j].account.bytes@,
                        before[p - 1].account.bytes@,
                        op.account.bytes@,
                    );
                }
            }
        }
        sorted.insert(p, op);
        proof {
            let now = sorted@;
            assert(now.len() == before.len() + 1);
            assert forall|i: int| 0 <= i < now.len() implies #[trigger] now[i] == (if i < p {
                before[i]
            } else if i == p {
                op
            } else {
                before[i - 1]
            }) by {}
            assert forall|i: int, j: int| 0 <= i < j < now.len() implies account_less(
                #[trigger] now[i].account,
                #[trigger] now[j].account,
            ) by {
                if j < p {
                    assert(account_less(before[i].account, before[j].account));
                } else if j == p {
                    assert(account_less(before[i].account, op.account));
                } else if i < p {
                    assert(account_less(before[i].account, before[j - 1].account));
                } else if i == p {
                    assert(account_less(op.account, before[j - 1].account));
                } else {
                    assert(account_less(before[i - 1].account, before[j - 1].account));
                }
            }
            lemma_account_order(op.account, op.account);
            assert forall|i: int| 0 <= i < now.len() implies after.dom().contains(
                #[trigger] now[i].account,
            ) && after[now[i].account] == now[i].key by {
                if i < p {
                    assert(account_less(before[i].account, op.account));
                    assert(snapshot.dom().contains(before[i].account));
                } else if i > p {
                    assert(account_less(op.account, before[i - 1].account));
                    assert(snapshot.dom().contains(before[i - 1].account));
                }
            }
            assert forall|a: AccountId| after.dom().contains(a) implies exists|i: int|
                0 <= i < now.len() && #[trigger] now[i].account == a by {
                if a == op.account {
                    assert(now[p as int].account == a);
                } else {
                    assert(snapshot.dom().contains(a));
                    let i = choose|i: int| 0 <= i < before.len() && #[trigger] before[i].account == a;
                    if i < p {
                        assert(now[i].account == a);
                    } else {
                        assert(now[i + 1].account == a);
                    }
                }
            }
        }
    }
}

/// Orders the operators that the chain lists for the blueprint into the
/// committee of the ceremony.
///
/// Fails when an operator has no key on record, naming the first such account
/// in committee order, or when there are more operators than party indices.
pub fn current_committee(operators: &Vec<Operator>) -> (out: Result<Committee, Error>)
    ensures
        match out {
            Ok(committee) => committee.wf() && committee_outcome(snapshot_of(operators@)) == Ok::<
                Seq<Member>,
                Error,
            >(committee@),
            Err(error) => committee_outcome(snapshot_of(operators@)) == Err::<Seq<Member>, Error>(
                error,
            ),
        },
{
    let mut sorted: Vec<Operator> = Vec::new();
    let mut i: usize = 0;
    while i < operators.len()
        invariant
            i <= operators@.len(),
            lists(sorted@, snapshot_of(operators@.take(i as int))),
        decreases operators@.len() - i,
    {
        let op = operators[i];
        proof {
            let next = operators@.take(i as int + 1);
            assert(next.drop_last() =~= operators@.take(i as int));
            assert(next.last() == op);
        }
        insert_operator(&mut sorted, op, Ghost(snapshot_of(operators@.take(i as int))));
        i += 1;
    }
    let ghost snapshot = snapshot_of(operators@);
    proof {
        assert(operators@.take(i as int) =~= operators@);
        lemma_listing_unique(sorted@, listing_of(snapshot), snapshot);
    }
    let mut members: Vec<Member> = Vec::new();
    let mut k: usize = 0;
    while k < sorted.len()
        invariant
            k <= sorted@.len(),
            sorted_by_account(sorted@),
            sorted@ == listing_of(snapshot_of(operators@)),
            first_keyless(sorted@, 0) == first_keyless(sorted@, k as int),
            members@.len() == k,
            forall|j: int|
                0 <= j < k ==> (#[trigger] sorted@[j]).key is Some && members@[j] == (Member {
                    account: sorted@[j].account,
                    key: sorted@[j].key->Some_0,
                }),
        decreases sorted@.len() - k,
    {
        match sorted[k].key {
            None => {
                return Err(Error::Context(ContextError::MissingOperatorKey(sorted[k].account)));
            },
            Some(key) => {
                members.push(Member { account: sorted[k].account, key });
            },
        }
        k += 1;
    }
    if members.len() > 65535 {
        return Err(Error::Context(ContextError::CommitteeTooLarge));
    }
    proof {
        assert(members@ =~= members_of(sorted@));
        assert forall|x: int, y: int| 0 <= x < y < members@.len() implies account_less(
            #[trigger] members@[x].account,
            #[trigger] members@[y].account,
        ) by {
            assert(account_less(sorted@[x].account, sorted@[y].account));
        }
    }
    Ok(Committee { members })
}

impl Committee {
    /// What holds of every committee: the accounts strictly increase and every
    /// party has an index.
    pub closed spec fn wf(&self) -> bool {
        &&& members_sorted(self.members@)
        &&& self.members@.len() <= u16::MAX
    }

    /// Every committee that this crate hands out is well formed.
    pub proof fn lemma_wf(&self)
        requires
            self.wf(),
        ensures
            members_sorted(self@),
            self@.len() <= u16::MAX,
    {
    }

    /// Number of parties.
    pub fn len(&self) -> (n: u16)
        requires
            self.wf(),
        ensures
            n == self@.len(),
    {
        self.members.len() as u16
    }

    /// The party at `index`.
    pub fn member(&self, index: u16) -> (out: Option<Member>)
        ensures
            index < self@.len() ==> out == Some(self@[index as int]),
            index >= self@.len() ==> out is None,
    {
        if (index as usize) < self.members.len() {
            Some(self.members[index as usize])
        } else {
            None
        }
    }

    /// The index of `account` in the committee together with the keys of all
    /// parties by index; `NotInCommittee` exactly when no party has that
    /// account.
    pub fn party_index_and_parties(&self, account: &AccountId) -> (out: Result<
        (u16, Vec<EcdsaPublic>),
        Error,
    >)
        requires
            self.wf(),
        ensures
            match out {
                Ok((index, parties)) => index < self@.len() && self@[index as int].account
                    == *account && index == member_index(self@, *account, 0) && parties@
                    == keys_of(self@),
                Err(error) => error == Error::NotInCommittee && member_index(self@, *account, 0)
                    == self@.len() && forall|j: int|
                    0 <= j < self@.len() ==> (#[trigger] self@[j]).account != *account,
            },
    {
        let mut parties: Vec<EcdsaPublic> = Vec::new();
        let mut found: Option<u16> = None;
        let mut i: usize = 0;
        while i < self.members.len()
            invariant
                i <= self.members@.len(),
                self.members@.len() <= u16::MAX,
                parties@.len() == i,
                forall|j: int| 0 <= j < i ==> parties@[j] == (#[trigger] self.members@[j]).key,
                match found {
                    Some(index) => index < i && self.members@[index as int].account == *account
                        && index == member_index(self.members@, *account, 0),
                    None => member_index(self.members@, *account, 0) == member_index(
                        self.members@,
                        *account,
                        i as int,
                    ) && forall|j: int|
                        0 <= j < i ==> (#[trigger] self.members@[j]).account != *account,
                },
            decreases self.members@.len() - i,
        {
            if found.is_none() && same_account(&self.members[i].account, account) {
                found = Some(i as u16);
            }
            parties.push(self.members[i].key);
            i += 1;
        }
        match found {
            Some(index) => {
                assert(parties@ =~= keys_of(self@));
                Ok((index, parties))
            },
            None => Err(Error::NotInCommittee),
        }
    }
}

} // verus!
