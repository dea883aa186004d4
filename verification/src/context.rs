//! What a node keeps of a lineage between its ceremonies, and what a job is
//! told of the world when it starts.

use crate::bytes::{bytes_equal, copy_all};
use crate::committee::{same_key, AccountId, EcdsaPublic, Operator};
use crate::error::Error;
use vstd::prelude::*;

verus! {

/// The public key that a lineage signs for.
#[derive(Clone, Copy, Debug, PartialEq, Eq)]
pub struct PublicKey {
    pub shared_public_key: EcdsaPublic,
}

/// The share of the key that key generation gives a party.
#[derive(Clone, Debug, PartialEq, Eq)]
pub struct CoreKeyShare {
    /// The threshold: how many parties sign together.
    pub min_signers: u16,
    pub shared_public_key: EcdsaPublic,
    /// The public share of each party, by index.
    pub public_shares: Vec<EcdsaPublic>,
    /// The secret share of this party. It never leaves the node.
    pub secret_share: Vec<u8>,
}

/// A share that a party can sign with: a core share together with auxiliary
/// information.
#[derive(Clone, Debug, PartialEq, Eq)]
pub struct KeyShare {
    pub min_signers: u16,
    pub shared_public_key: EcdsaPublic,
    pub public_shares: Vec<EcdsaPublic>,
    pub secret_share: Vec<u8>,
    pub aux_info: Vec<u8>,
}

/// What key generation leaves behind.
#[derive(Clone, Debug, PartialEq, Eq)]
pub struct KeygenOutput {
    pub pregenerated_primes: Vec<u8>,
    pub core_key_share: CoreKeyShare,
    pub public_key: PublicKey,
}

/// The record of a lineage.
#[derive(Clone, Debug, PartialEq, Eq)]
pub struct DfnsStore {
    /// Set by key generation.
    pub keygen_output: Option<KeygenOutput>,
    /// The core share with the auxiliary information of the latest refresh.
    pub aux_keyshare: Option<KeyShare>,
    /// The share after the latest refresh: the one that signs.
    pub refreshed_key: Option<KeyShare>,
}

/// A core share as the contracts see it.
pub struct CoreKeyShareView {
    pub min_signers: u16,
    pub shared_public_key: EcdsaPublic,
    pub public_shares: Seq<EcdsaPublic>,
    pub secret_share: Seq<u8>,
}

/// A share as the contracts see it.
pub struct KeyShareView {
    pub min_signers: u16,
    pub shared_public_key: EcdsaPublic,
    pub public_shares: Seq<EcdsaPublic>,
    pub secret_share: Seq<u8>,
    pub aux_info: Seq<u8>,
}

/// The output of key generation as the contracts see it.
pub struct KeygenOutputView {
    pub pregenerated_primes: Seq<u8>,
    pub core_key_share: CoreKeyShareView,
    pub public_key: PublicKey,
}

/// A record as the contracts see it.
pub struct DfnsStoreView {
    pub keygen_output: Option<KeygenOutputView>,
    pub aux_keyshare: Option<KeyShareView>,
    pub refreshed_key: Option<KeyShareView>,
}

impl View for CoreKeyShare {
    type V = CoreKeyShareView;

    open spec fn view(&self) -> CoreKeyShareView {
        CoreKeyShareView {
            min_signers: self.min_signers,
            shared_public_key: self.shared_public_key,
            public_shares: self.public_shares@,
            secret_share: self.secret_share@,
        }
    }
}

impl View for KeyShare {
    type V = KeyShareView;

    open spec fn view(&self) -> KeyShareView {
        KeyShareView {
            min_signers: self.min_signers,
            shared_public_key: self.shared_public_key,
            public_shares: self.public_shares@,
            secret_share: self.secret_share@,
            aux_info: self.aux_info@,
        }
    }
}

impl View for KeygenOutput {
    type V = KeygenOutputView;

    open spec fn view(&self) -> KeygenOutputView {
        KeygenOutputView {
            pregenerated_primes: self.pregenerated_primes@,
            core_key_share: self.core_key_share@,
            public_key: self.public_key,
        }
    }
}

/// The view of a key share that may be absent.
pub open spec fn key_share_view(share: Option<KeyShare>) -> Option<KeyShareView> {
    match share {
        Some(share) => Some(share@),
        None => None,
    }
}

impl View for DfnsStore {
    type V = DfnsStoreView;

    open spec fn view(&self) -> DfnsStoreView {
        DfnsStoreView {
            keygen_output: match self.keygen_output {
                Some(output) => Some(output@),
                None => None,
            },
            aux_keyshare: key_share_view(self.aux_keyshare),
            refreshed_key: key_share_view(self.refreshed_key),
        }
    }
}

impl CoreKeyShareView {
    /// The threshold is positive and at most the number of parties, each of
    /// which has an index.
    pub open spec fn wf(self) -> bool {
        0 < self.min_signers <= self.public_shares.len() <= u16::MAX
    }

    /// The share that signs once `aux_info` is at hand.
    pub open spec fn with_aux(self, aux_info: Seq<u8>) -> KeyShareView {
        KeyShareView {
            min_signers: self.min_signers,
            shared_public_key: self.shared_public_key,
            public_shares: self.public_shares,
            secret_share: self.secret_share,
            aux_info,
        }
    }
}

impl KeyShareView {
    /// The threshold is positive and at most the number of parties, each of
    /// which has an index.
    pub open spec fn wf(self) -> bool {
        0 < self.min_signers <= self.public_shares.len() <= u16::MAX
    }

    /// Whether the share is one of the lineage of `core`: well formed, with
    /// the threshold of the lineage and a public share for each of its
    /// parties.
    pub open spec fn continues(self, core: CoreKeyShareView) -> bool {
        &&& self.wf()
        &&& self.min_signers == core.min_signers
        &&& self.public_shares.len() == core.public_shares.len()
    }
}

impl KeygenOutputView {
    /// The share is well formed and is a share of the public key.
    pub open spec fn wf(self) -> bool {
        &&& self.core_key_share.wf()
        &&& self.core_key_share.shared_public_key == self.public_key.shared_public_key
    }
}

impl DfnsStoreView {
    /// What holds of every record that the jobs write: nothing is present
    /// without what it was made from, the auxiliary share is the core share
    /// with auxiliary information, and the refreshed share is a share of the
    /// public key that key generation produced, with the threshold and the
    /// number of parties of the lineage.
    pub open spec fn wf(self) -> bool {
        &&& self.keygen_output is None ==> self.aux_keyshare is None
        &&& self.aux_keyshare is None ==> self.refreshed_key is None
        &&& self.keygen_output matches Some(output) ==> {
            &&& output.wf()
            &&& self.aux_keyshare matches Some(aux) ==> aux == output.core_key_share.with_aux(
                aux.aux_info,
            )
            &&& self.refreshed_key matches Some(key) ==> key.continues(output.core_key_share)
                && key.shared_public_key == output.public_key.shared_public_key
        }
    }

    /// The record right after key generation.
    pub open spec fn after_keygen(output: KeygenOutputView) -> DfnsStoreView {
        DfnsStoreView { keygen_output: Some(output), aux_keyshare: None, refreshed_key: None }
    }

    /// The record once auxiliary information was generated, or why there is
    /// none.
    pub open spec fn with_aux(self, aux_info: Seq<u8>) -> Result<DfnsStoreView, Error> {
        match self.keygen_output {
            None => Err(Error::StoreMissing),
            Some(output) => Ok(
                DfnsStoreView {
                    aux_keyshare: Some(output.core_key_share.with_aux(aux_info)),
                    ..self
                },
            ),
        }
    }

    /// The record once the refresh produced `key`, or why there is none: the
    /// refresh needs the auxiliary share, and must keep the threshold, the
    /// number of parties and the public key.
    pub open spec fn with_refreshed(self, key: KeyShareView) -> Result<DfnsStoreView, Error> {
        if self.keygen_output is None || self.aux_keyshare is None {
            Err(Error::StoreMissing)
        } else if !key.continues(self.keygen_output->Some_0.core_key_share) {
            Err(Error::ProtocolError)
        } else if key.shared_public_key != self.keygen_output->Some_0.public_key.shared_public_key {
            Err(Error::RefreshPublicKeyMismatch)
        } else {
            Ok(DfnsStoreView { refreshed_key: Some(key), ..self })
        }
    }

    /// Whether `later` keeps what `self` holds: the output of key generation
    /// unchanged, and a share wherever there was one.
    pub open spec fn kept_by(self, later: DfnsStoreView) -> bool {
        &&& self.keygen_output is Some ==> later.keygen_output == self.keygen_output
        &&& self.aux_keyshare is Some ==> later.aux_keyshare is Some
        &&& self.refreshed_key is Some ==> later.refreshed_key is Some
    }

    /// The record after the refreshes that produced `keys`, in turn; one that
    /// is refused leaves the record as it was.
    pub open spec fn after_refreshes(self, keys: Seq<KeyShareView>) -> DfnsStoreView
        decreases keys.len(),
    {
        if keys.len() == 0 {
            self
        } else {
            let before = self.after_refreshes(keys.drop_last());
            match before.with_refreshed(keys.last()) {
                Ok(after) => after,
                Err(_) => before,
            }
        }
    }
}

/// However many refreshes follow one another, the refreshed share is a share
/// of the public key that key generation produced.
pub proof fn lemma_refreshes_keep_public_key(record: DfnsStoreView, keys: Seq<KeyShareView>)
    requires
        record.wf(),
    ensures
        record.after_refreshes(keys).wf(),
        record.after_refreshes(keys).keygen_output == record.keygen_output,
        record.after_refreshes(keys).refreshed_key matches Some(key) ==> key.shared_public_key
            == record.keygen_output->Some_0.public_key.shared_public_key,
    decreases keys.len(),
{
    if keys.len() > 0 {
        lemma_refreshes_keep_public_key(record, keys.drop_last());
    }
}

/// Nothing that a record holds is lost by the steps of a refresh: the output
/// of key generation stays as it is, and where there was a share there is one.
pub proof fn lemma_record_only_grows(record: DfnsStoreView, aux_info: Seq<u8>, key: KeyShareView)
    ensures
        record.with_aux(aux_info) matches Ok(later) ==> record.kept_by(later),
        record.with_refreshed(key) matches Ok(later) ==> record.kept_by(later),
        forall|keys: Seq<KeyShareView>| record.kept_by(#[trigger] record.after_refreshes(keys)),
{
    assert forall|keys: Seq<KeyShareView>| record.kept_by(
        #[trigger] record.after_refreshes(keys),
    ) by {
        lemma_refreshes_only_grow(record, keys);
    }
}

proof fn lemma_refreshes_only_grow(record: DfnsStoreView, keys: Seq<KeyShareView>)
    ensures
        record.kept_by(record.after_refreshes(keys)),
    decreases keys.len(),
{
    if keys.len() > 0 {
        lemma_refreshes_only_grow(record, keys.drop_last());
    }
}

impl CoreKeyShare {
    /// A copy of the share.
    pub fn duplicate(&self) -> (out: CoreKeyShare)
        ensures
            out@ == self@,
    {
        CoreKeyShare {
            min_signers: self.min_signers,
            shared_public_key: self.shared_public_key,
            public_shares: copy_all(self.public_shares.as_slice()),
            secret_share: copy_all(self.secret_share.as_slice()),
        }
    }

    /// Whether the threshold and the number of parties fit together.
    pub fn is_valid(&self) -> (valid: bool)
        ensures
            valid == self@.wf(),
    {
        0 < self.min_signers && self.min_signers as usize <= self.public_shares.len()
            && self.public_shares.len() <= 65535
    }

    /// The share that signs once `aux_info` is at hand.
    pub fn with_aux(&self, aux_info: Vec<u8>) -> (out: KeyShare)
        ensures
            out@ == self@.with_aux(aux_info@),
    {
        KeyShare {
            min_signers: self.min_signers,
            shared_public_key: self.shared_public_key,
            public_shares: copy_all(self.public_shares.as_slice()),
            secret_share: copy_all(self.secret_share.as_slice()),
            aux_info,
        }
    }
}

/// Whether two lists of keys hold the same keys.
fn same_keys(a: &Vec<EcdsaPublic>, b: &Vec<EcdsaPublic>) -> (same: bool)
    ensures
        same == (a@ == b@),
{
    if a.len() != b.len() {
        return false;
    }
    let mut i: usize = 0;
    while i < a.len()
        invariant
            a@.len() == b@.len(),
            i <= a@.len(),
            forall|j: int| 0 <= j < i ==> a@[j] == b@[j],
        decreases a@.len() - i,
    {
        if !same_key(&a[i], &b[i]) {
            return false;
        }
        i += 1;
    }
    assert(a@ =~= b@);
    true
}

impl KeyShare {
    /// A copy of the share.
    pub fn duplicate(&self) -> (out: KeyShare)
        ensures
            out@ == self@,
    {
        KeyShare {
            min_signers: self.min_signers,
            shared_public_key: self.shared_public_key,
            public_shares: copy_all(self.public_shares.as_slice()),
            secret_share: copy_all(self.secret_share.as_slice()),
            aux_info: copy_all(self.aux_info.as_slice()),
        }
    }

    /// Whether the threshold and the number of parties fit together.
    pub fn is_valid(&self) -> (valid: bool)
        ensures
            valid == self@.wf(),
    {
        0 < self.min_signers && self.min_signers as usize <= self.public_shares.len()
            && self.public_shares.len() <= 65535
    }

    /// Whether the share is one of the lineage of `core`.
    pub fn continues(&self, core: &CoreKeyShare) -> (yes: bool)
        ensures
            yes == self@.continues(core@),
    {
        self.is_valid() && self.min_signers == core.min_signers && self.public_shares.len()
            == core.public_shares.len()
    }

    /// Whether the share is `core` with auxiliary information.
    pub fn extends(&self, core: &CoreKeyShare) -> (yes: bool)
        ensures
            yes == (self@ == core@.with_aux(self@.aux_info)),
    {
        self.min_signers == core.min_signers && same_key(
            &self.shared_public_key,
            &core.shared_public_key,
        ) && same_keys(&self.public_shares, &core.public_shares) && bytes_equal(
            self.secret_share.as_slice(),
            core.secret_share.as_slice(),
        )
    }
}

impl KeygenOutput {
    /// A copy of the output.
    pub fn duplicate(&self) -> (out: KeygenOutput)
        ensures
            out@ == self@,
    {
        KeygenOutput {
            pregenerated_primes: copy_all(self.pregenerated_primes.as_slice()),
            core_key_share: self.core_key_share.duplicate(),
            public_key: self.public_key,
        }
    }

    /// What key generation leaves behind when it produced `share` and the
    /// primes were generated.
    pub fn new(pregenerated_primes: Vec<u8>, share: CoreKeyShare) -> (out: KeygenOutput)
        ensures
            out@.pregenerated_primes == pregenerated_primes@,
            out@.core_key_share == share@,
            out@.public_key.shared_public_key == share.shared_public_key,
            share@.wf() ==> out@.wf(),
    {
        let public_key = PublicKey { shared_public_key: share.shared_public_key };
        KeygenOutput { pregenerated_primes, core_key_share: share, public_key }
    }
}

/// A copy of a share that may be absent.
fn duplicate_share(share: &Option<KeyShare>) -> (out: Option<KeyShare>)
    ensures
        key_share_view(out) == key_share_view(*share),
{
    match share {
        Some(share) => Some(share.duplicate()),
        None => None,
    }
}

impl DfnsStore {
    /// A copy of the record.
    pub fn duplicate(&self) -> (out: DfnsStore)
        ensures
            out@ == self@,
    {
        let keygen_output = match &self.keygen_output {
            Some(output) => Some(output.duplicate()),
            None => None,
        };
        DfnsStore {
            keygen_output,
            aux_keyshare: duplicate_share(&self.aux_keyshare),
            refreshed_key: duplicate_share(&self.refreshed_key),
        }
    }

    /// The record that key generation writes.
    pub fn after_keygen(output: KeygenOutput) -> (out: DfnsStore)
        ensures
            out@ == DfnsStoreView::after_keygen(output@),
    {
        DfnsStore { keygen_output: Some(output), aux_keyshare: None, refreshed_key: None }
    }

    /// Whether the record is one that the jobs can build on.
    pub fn is_valid(&self) -> (valid: bool)
        ensures
            valid == self@.wf(),
    {
        match &self.keygen_output {
            None => self.aux_keyshare.is_none() && self.refreshed_key.is_none(),
            Some(output) => {
                let output_ok = output.core_key_share.is_valid() && same_key(
                    &output.core_key_share.shared_public_key,
                    &output.public_key.shared_public_key,
                );
                let aux_ok = match &self.aux_keyshare {
                    None => self.refreshed_key.is_none(),
                    Some(aux) => aux.extends(&output.core_key_share),
                };
                let refreshed_ok = match &self.refreshed_key {
                    None => true,
                    Some(key) => key.continues(&output.core_key_share) && same_key(
                        &key.shared_public_key,
                        &output.public_key.shared_public_key,
                    ),
                };
                output_ok && aux_ok && refreshed_ok
            },
        }
    }

    /// Adds the auxiliary share made of the stored core share and `aux_info`.
    /// `StoreMissing` when key generation left nothing.
    pub fn with_aux(self, aux_info: Vec<u8>) -> (out: Result<DfnsStore, Error>)
        ensures
            match out {
                Ok(record) => self@.with_aux(aux_info@) == Ok::<DfnsStoreView, Error>(record@),
                Err(error) => self@.with_aux(aux_info@) == Err::<DfnsStoreView, Error>(error),
            },
            self@.wf() ==> (out matches Ok(record) ==> record@.wf()),
    {
        match &self.keygen_output {
            None => Err(Error::StoreMissing),
            Some(output) => {
                let share = output.core_key_share.with_aux(aux_info);
                Ok(
                    DfnsStore {
                        keygen_output: self.keygen_output,
                        aux_keyshare: Some(share),
                        refreshed_key: self.refreshed_key,
                    },
                )
            },
        }
    }

    /// Puts `key` in the place of the refreshed share. `StoreMissing` when
    /// there is no auxiliary share to refresh from, `ProtocolError` when the
    /// threshold of `key` does not fit its parties or `key` has not the
    /// threshold and the number of parties of the lineage,
    /// `RefreshPublicKeyMismatch` when `key` is a share of another public key.
    pub fn with_refreshed(self, key: KeyShare) -> (out: Result<DfnsStore, Error>)
        ensures
            match out {
                Ok(record) => self@.with_refreshed(key@) == Ok::<DfnsStoreView, Error>(record@),
                Err(error) => self@.with_refreshed(key@) == Err::<DfnsStoreView, Error>(error),
            },
            self@.wf() ==> (out matches Ok(record) ==> record@.wf()),
    {
        if self.keygen_output.is_none() || self.aux_keyshare.is_none() {
            return Err(Error::StoreMissing);
        }
        let (continues, same) = match &self.keygen_output {
            Some(output) => (
                key.continues(&output.core_key_share),
                same_key(&key.shared_public_key, &output.public_key.shared_public_key),
            ),
            None => (false, false),
        };
        if !continues {
            return Err(Error::ProtocolError);
        }
        if !same {
            return Err(Error::RefreshPublicKeyMismatch);
        }
        Ok(
            DfnsStore {
                keygen_output: self.keygen_output,
                aux_keyshare: self.aux_keyshare,
                refreshed_key: Some(key),
            },
        )
    }
}

/// What a job is told when it starts: the blueprint and the call it serves,
/// the account the node signs with, the operators as the chain lists them,
/// and how long a ceremony may take if the node is configured to say so.
#[derive(Clone, Debug, PartialEq, Eq)]
pub struct DfnsContext {
    pub blueprint_id: Option<u64>,
    pub call_id: Option<u64>,
    pub signer: Option<AccountId>,
    pub operators: Vec<Operator>,
    /// Seconds that a ceremony may take; the default of the job if absent.
    pub deadline_secs: Option<u64>,
}

impl DfnsContext {
    /// The context of a node that signs with `signer` for the blueprint
    /// `blueprint_id`, before any call.
    pub fn new(blueprint_id: Option<u64>, signer: Option<AccountId>, operators: Vec<Operator>) -> (out:
        DfnsContext)
        ensures
            out.blueprint_id == blueprint_id,
            out.call_id is None,
            out.signer == signer,
            out.operators@ == operators@,
            out.deadline_secs is None,
    {
        DfnsContext { blueprint_id, call_id: None, signer, operators, deadline_secs: None }
    }

    /// The context with `seconds` as the time that a ceremony may take.
    pub fn with_deadline(self, seconds: u64) -> (out: DfnsContext)
        ensures
            out.blueprint_id == self.blueprint_id,
            out.call_id == self.call_id,
            out.signer == self.signer,
            out.operators@ == self.operators@,
            out.deadline_secs == Some(seconds),
    {
        DfnsContext {
            blueprint_id: self.blueprint_id,
            call_id: self.call_id,
            signer: self.signer,
            operators: self.operators,
            deadline_secs: Some(seconds),
        }
    }

    /// The context of the call `call_id`.
    pub fn for_call(&self, call_id: u64) -> (out: DfnsContext)
        ensures
            out.blueprint_id == self.blueprint_id,
            out.call_id == Some(call_id),
            out.signer == self.signer,
            out.operators@ == self.operators@,
            out.deadline_secs == self.deadline_secs,
    {
        DfnsContext {
            blueprint_id: self.blueprint_id,
            call_id: Some(call_id),
            signer: self.signer,
            operators: copy_all(self.operators.as_slice()),
            deadline_secs: self.deadline_secs,
        }
    }
}

} // verus!
