//! The ledger core: per-account balance records and the store that owns
//! them, with the deposit and withdrawal pipelines.

use vstd::prelude::*;
use vstd::pervasive::unreached;

use crate::assoc::{
    lemma_map_of_contains, lemma_map_of_index, lemma_map_of_push, lemma_map_of_remove,
    lemma_map_of_replace, lemma_map_values_push, lemma_map_values_remove, lemma_unique_push,
    map_of, unique_keys,
};
use crate::errors::LedgerError;

verus! {

/// Mathematical content of an account's record: the native balance, the
/// storage counter, and the recorded balance of every deposited asset.
#[verifier::ext_equal]
pub struct DepositView {
    pub near: u128,
    pub storage_used: u64,
    pub tokens: Map<Seq<char>, u128>,
}

impl DepositView {
    /// Recorded balance of one asset; an asset never deposited reads as
    /// zero, indistinguishable from one whose balance dropped to zero.
    pub open spec fn token_bal(self, t: Seq<char>) -> u128 {
        if self.tokens.contains_key(t) {
            self.tokens[t]
        } else {
            0
        }
    }

    /// Storage solvency: the native balance covers the storage cost at the
    /// given unit price.
    pub open spec fn solvent(self, storage_price: u128) -> bool {
        self.near as int >= self.storage_used as int * storage_price as int
    }

    /// The native balance covers `amount` and still funds the record's
    /// storage after the withdrawal.
    pub open spec fn covers_native(self, amount: u128, storage_price: u128) -> bool {
        self.near as int >= amount as int + self.storage_used as int * storage_price as int
    }

    /// The record can pay out `amount` of asset `t`: the asset has been
    /// deposited before and its balance suffices.
    pub open spec fn can_debit(self, t: Seq<char>, amount: u128) -> bool {
        self.tokens.contains_key(t) && amount <= self.tokens[t]
    }

    /// The record after crediting asset `t` by `amount`.
    pub open spec fn credit(self, t: Seq<char>, amount: u128) -> DepositView
        recommends
            self.token_bal(t) + amount <= u128::MAX,
    {
        DepositView { tokens: self.tokens.insert(t, (self.token_bal(t) + amount) as u128), ..self }
    }

    /// The record after debiting asset `t` by `amount`.
    pub open spec fn debit(self, t: Seq<char>, amount: u128) -> DepositView
        recommends
            self.can_debit(t, amount),
    {
        DepositView { tokens: self.tokens.insert(t, (self.tokens[t] - amount) as u128), ..self }
    }
}

/// One account's ledger record: deposits and the storage they must fund.
#[derive(Debug)]
pub struct AccountDeposit {
    /// Native amount held for the account. Must always cover
    /// `storage_used` times the storage unit price.
    pub near: u128,
    /// Storage units consumed by this account's ledger entry.
    pub storage_used: u64,
    /// Deposited asset balances, keyed by asset identifier.
    tokens: Vec<(String, u128)>,
}

impl View for AccountDeposit {
    type V = DepositView;

    closed spec fn view(&self) -> DepositView {
        DepositView {
            near: self.near,
            storage_used: self.storage_used,
            tokens: map_of(self.pairs()),
        }
    }
}

impl AccountDeposit {
    /// The asset pairs, with string keys read as character sequences.
    pub closed spec fn pairs(&self) -> Seq<(Seq<char>, u128)> {
        self.tokens@.map_values(|p: (String, u128)| (p.0@, p.1))
    }

    /// Well-formed: no asset identifier occurs twice.
    pub open spec fn wf(&self) -> bool {
        unique_keys(self.pairs())
    }

    /// A fresh record holding `near` native units, `storage_used` storage
    /// units, and no asset balances.
    pub fn new(near: u128, storage_used: u64) -> (d: AccountDeposit)
        ensures
            d.wf(),
            d@ == (DepositView {
                near,
                storage_used,
                tokens: Map::<Seq<char>, u128>::empty(),
            }),
    {
        let d = AccountDeposit { near, storage_used, tokens: Vec::new() };
        proof {
            assert(d.pairs() =~= Seq::<(Seq<char>, u128)>::empty());
        }
        d
    }

    /// Index of the pair holding `token`, if any.
    fn find_token(&self, token: &String) -> (r: Option<usize>)
        ensures
            match r {
                Some(i) => i < self.pairs().len() && self.pairs()[i as int].0 == token@,
                None => forall|j: int| 0 <= j < self.pairs().len() ==> self.pairs()[j].0 != token@,
            },
    {
        let mut i: usize = 0;
        while i < self.tokens.len()
            invariant
                i <= self.tokens.len(),
                forall|j: int| 0 <= j < i ==> self.pairs()[j].0 != token@,
            decreases self.tokens.len() - i,
        {
            if self.tokens[i].0 == *token {
                return Some(i);
            }
            i += 1;
        }
        None
    }

    /// Recorded balance of `token`; zero when the asset was never deposited.
    pub fn token_balance(&self, token: &String) -> (r: u128)
        requires
            self.wf(),
        ensures
            r == self@.token_bal(token@),
    {
        match self.find_token(token) {
            Some(i) => {
                proof {
                    lemma_map_of_index(self.pairs(), i as int);
                }
                self.tokens[i].1
            },
            None => {
                proof {
                    lemma_map_of_contains(self.pairs(), token@);
                }
                0
            },
        }
    }

    /// Whether `amount` of `token` can be debited: the asset is recorded
    /// and its balance suffices.
    pub fn can_debit(&self, token: &String, amount: u128) -> (r: bool)
        requires
            self.wf(),
        ensures
            r == self@.can_debit(token@, amount),
    {
        match self.find_token(token) {
            Some(i) => {
                proof {
                    lemma_map_of_index(self.pairs(), i as int);
                }
                amount <= self.tokens[i].1
            },
            None => {
                proof {
                    lemma_map_of_contains(self.pairs(), token@);
                }
                false
            },
        }
    }

    /// Credits `amount` of `token`, creating the entry at `amount` when the
    /// asset was never deposited. The amount is taken as already received;
    /// there is no failure mode.
    pub fn add(&mut self, token: &String, amount: u128)
        requires
            old(self).wf(),
            old(self)@.token_bal(token@) + amount <= u128::MAX,
        ensures
            final(self).wf(),
            final(self)@ == old(self)@.credit(token@, amount),
    {
        let ghost s = self.pairs();
        match self.find_token(token) {
            Some(i) => {
                proof {
                    lemma_map_of_index(s, i as int);
                }
                let (key, bal) = self.tokens.remove(i);
                self.tokens.push((key, bal + amount));
                proof {
                    let f = |p: (String, u128)| (p.0@, p.1);
                    lemma_map_values_remove(old(self).tokens@, f, i as int);
                    lemma_map_values_push(old(self).tokens@.remove(i as int), f, self.tokens@.last());
                    assert(self.pairs() =~= s.remove(i as int).push((token@, (bal + amount) as u128)));
                    lemma_map_of_replace(s, i as int, (bal + amount) as u128);
                    assert(self@ =~= old(self)@.credit(token@, amount));
                }
            },
            None => {
                proof {
                    lemma_map_of_contains(s, token@);
                }
                self.tokens.push((token.clone(), amount));
                proof {
                    let f = |p: (String, u128)| (p.0@, p.1);
                    lemma_map_values_push(old(self).tokens@, f, self.tokens@.last());
                    assert(self.pairs() =~= s.push((token@, amount)));
                    lemma_unique_push(s, token@, amount);
                    lemma_map_of_push(s, token@, amount);
                    assert(self@ =~= old(self)@.credit(token@, amount));
                }
            },
        }
    }

    /// Debits `amount` of `token`. Fails when the recorded balance is
    /// absent or below `amount`, leaving the record unchanged.
    pub fn remove(&mut self, token: &String, amount: u128) -> (r: Result<(), LedgerError>)
        requires
            old(self).wf(),
        ensures
            final(self).wf(),
            match r {
                Ok(()) => old(self)@.can_debit(token@, amount) && final(self)@ == old(self)@.debit(
                    token@,
                    amount,
                ),
                Err(e) => e == LedgerError::InsufficientAssetBalance && !old(self)@.can_debit(
                    token@,
                    amount,
                ) && *final(self) == *old(self),
            },
    {
        let ghost s = self.pairs();
        match self.find_token(token) {
            Some(i) => {
                proof {
                    lemma_map_of_index(s, i as int);
                }
                if self.tokens[i].1 < amount {
                    return Err(LedgerError::InsufficientAssetBalance);
                }
                let (key, bal) = self.tokens.remove(i);
                self.tokens.push((key, bal - amount));
                proof {
                    let f = |p: (String, u128)| (p.0@, p.1);
                    lemma_map_values_remove(old(self).tokens@, f, i as int);
                    lemma_map_values_push(old(self).tokens@.remove(i as int), f, self.tokens@.last());
                    assert(self.pairs() =~= s.remove(i as int).push((token@, (bal - amount) as u128)));
                    lemma_map_of_replace(s, i as int, (bal - amount) as u128);
                    assert(self@ =~= old(self)@.debit(token@, amount));
                }
                Ok(())
            },
            None => {
                proof {
                    lemma_map_of_contains(s, token@);
                }
                Err(LedgerError::InsufficientAssetBalance)
            },
        }
    }

    /// Checks storage solvency at the given unit price; the record itself
    /// is not changed.
    pub fn assert_storage(&self, storage_price: u128) -> (r: Result<(), LedgerError>)
        ensures
            r == if self@.solvent(storage_price) {
                Ok::<(), LedgerError>(())
            } else {
                Err::<(), LedgerError>(LedgerError::StorageUnderfunded)
            },
    {
        match (self.storage_used as u128).checked_mul(storage_price) {
            Some(cost) => if self.near >= cost {
                Ok(())
            } else {
                Err(LedgerError::StorageUnderfunded)
            },
            None => Err(LedgerError::StorageUnderfunded),
        }
    }

    /// Checks that the native balance covers `amount` and still funds the
    /// record's storage after the withdrawal; the record is not changed.
    pub fn assert_near(&self, amount: u128, storage_price: u128) -> (r: Result<(), LedgerError>)
        ensures
            r == if self@.covers_native(amount, storage_price) {
                Ok::<(), LedgerError>(())
            } else {
                Err::<(), LedgerError>(LedgerError::InsufficientNativeBalance)
            },
    {
        match (self.storage_used as u128).checked_mul(storage_price) {
            Some(cost) => match amount.checked_add(cost) {
                Some(needed) => if self.near >= needed {
                    Ok(())
                } else {
                    Err(LedgerError::InsufficientNativeBalance)
                },
                None => Err(LedgerError::InsufficientNativeBalance),
            },
            None => Err(LedgerError::InsufficientNativeBalance),
        }
    }
}

/// A requested one-way native-currency transfer, dispatched by the host
/// after the local debit has been committed.
#[derive(Debug)]
pub struct NativeTransfer {
    pub recipient: String,
    pub amount: u128,
}

/// How an asset transfer is to be delivered by the asset collaborator.
#[derive(Debug)]
pub enum TokenTransferMode {
    /// The collaborator credits the recipient and nothing more.
    Simple,
    /// The collaborator credits the recipient and then hands it the
    /// enclosed instruction, for recipients that are themselves
    /// programmable accounts.
    WithInstruction(String),
}

/// A requested asset transfer, dispatched fire-and-forget by the host; its
/// confirmation, if any, arrives as a separate later request.
#[derive(Debug)]
pub struct TokenTransfer {
    pub token: String,
    pub recipient: String,
    pub amount: u128,
    pub mode: TokenTransferMode,
}

/// The ledger store and its pipelines: one record per registered account,
/// owned exclusively; every operation loads the caller's record, checks,
/// mutates, and writes back, or fails and changes nothing.
pub struct NearSwap {
    deposits: Vec<(String, AccountDeposit)>,
}

impl View for NearSwap {
    type V = Map<Seq<char>, DepositView>;

    closed spec fn view(&self) -> Map<Seq<char>, DepositView> {
        map_of(self.pairs())
    }
}

impl NearSwap {
    /// The account pairs, with identifiers read as character sequences.
    pub closed spec fn pairs(&self) -> Seq<(Seq<char>, DepositView)> {
        self.deposits@.map_values(|p: (String, AccountDeposit)| (p.0@, p.1@))
    }

    /// Well-formed: no account occurs twice, and every record is.
    pub closed spec fn wf(&self) -> bool {
        unique_keys(self.pairs()) && forall|i: int|
            0 <= i < self.deposits@.len() ==> (#[trigger] self.deposits@[i]).1.wf()
    }

    /// An empty store, with no account registered.
    pub fn new() -> (s: NearSwap)
        ensures
            s.wf(),
            s@ == Map::<Seq<char>, DepositView>::empty(),
    {
        let s = NearSwap { deposits: Vec::new() };
        proof {
            assert(s.pairs() =~= Seq::<(Seq<char>, DepositView)>::empty());
        }
        s
    }

    /// Index of the record of `id`, if any.
    fn find_account(&self, id: &String) -> (r: Option<usize>)
        ensures
            match r {
                Some(i) => i < self.pairs().len() && self.pairs()[i as int].0 == id@,
                None => forall|j: int| 0 <= j < self.pairs().len() ==> self.pairs()[j].0 != id@,
            },
    {
        let mut i: usize = 0;
        while i < self.deposits.len()
            invariant
                i <= self.deposits.len(),
                forall|j: int| 0 <= j < i ==> self.pairs()[j].0 != id@,
            decreases self.deposits.len() - i,
        {
            if self.deposits[i].0 == *id {
                return Some(i);
            }
            i += 1;
        }
        None
    }

    /// Takes the record at index `i` out of the store.
    fn take(&mut self, i: usize) -> (pair: (String, AccountDeposit))
        requires
            old(self).wf(),
            i < old(self).pairs().len(),
        ensures
            final(self).wf(),
            pair.1.wf(),
            pair.0@ == old(self).pairs()[i as int].0,
            old(self)@.contains_key(pair.0@),
            pair.1@ == old(self)@[pair.0@],
            final(self)@ == old(self)@.remove(pair.0@),
            forall|j: int|
                0 <= j < final(self).pairs().len() ==> final(self).pairs()[j].0 != pair.0@,
    {
        let ghost s = self.pairs();
        let p = self.deposits.remove(i);
        proof {
            let f = |q: (String, AccountDeposit)| (q.0@, q.1@);
            lemma_map_values_remove(old(self).deposits@, f, i as int);
            lemma_map_of_index(s, i as int);
            lemma_map_of_remove(s, i as int);
            assert(self.pairs() =~= s.remove(i as int));
            old(self).deposits@.remove_ensures(i as int);
            s.remove_ensures(i as int);
            assert forall|j: int|
                0 <= j < self.deposits@.len() implies (#[trigger] self.deposits@[j]).1.wf() by {
                if j < i {
                    assert(self.deposits@[j] == old(self).deposits@[j]);
                } else {
                    assert(self.deposits@[j] == old(self).deposits@[j + 1]);
                }
            }
            assert forall|j: int|
                0 <= j < self.pairs().len() implies self.pairs()[j].0 != p.0@ by {
                if j < i {
                    assert(self.pairs()[j] == s[j]);
                } else {
                    assert(self.pairs()[j] == s[j + 1]);
                }
            }
        }
        p
    }

    /// Writes a record under a key that the store does not yet hold.
    fn put(&mut self, key: String, d: AccountDeposit)
        requires
            old(self).wf(),
            d.wf(),
            forall|j: int| 0 <= j < old(self).pairs().len() ==> old(self).pairs()[j].0 != key@,
        ensures
            final(self).wf(),
            final(self)@ == old(self)@.insert(key@, d@),
    {
        let ghost kv = (key@, d@);
        self.deposits.push((key, d));
        proof {
            let f = |q: (String, AccountDeposit)| (q.0@, q.1@);
            lemma_map_values_push(old(self).deposits@, f, self.deposits@.last());
            assert(self.pairs() =~= old(self).pairs().push(kv));
            lemma_unique_push(old(self).pairs(), kv.0, kv.1);
            lemma_map_of_push(old(self).pairs(), kv.0, kv.1);
            assert forall|j: int|
                0 <= j < self.deposits@.len() implies (#[trigger] self.deposits@[j]).1.wf() by {
                if j < self.deposits@.len() - 1 {
                    assert(self.deposits@[j] == old(self).deposits@[j]);
                }
            }
        }
    }

    /// The out-of-scope registration step the pipelines assume has
    /// happened: creates (or replaces) the record of `account`, holding
    /// `near` native units, `storage_used` storage units and no assets.
    /// How the registration is paid for is settled outside the ledger.
    pub fn register_account(&mut self, account: &String, near: u128, storage_used: u64)
        requires
            old(self).wf(),
        ensures
            final(self).wf(),
            final(self)@ == old(self)@.insert(
                account@,
                (DepositView { near, storage_used, tokens: Map::<Seq<char>, u128>::empty() }),
            ),
    {
        let d = AccountDeposit::new(near, storage_used);
        match self.find_account(account) {
            Some(i) => {
                let (key, _prior) = self.take(i);
                self.put(key, d);
                proof {
                    assert(self@ =~= old(self)@.insert(account@, d@));
                }
            },
            None => {
                self.put(account.clone(), d);
            },
        }
    }

    /// Loads the record of `from`; fails when the account is not
    /// registered, which aborts the enclosing request.
    pub fn get_deposit(&self, from: &String) -> (r: Result<&AccountDeposit, LedgerError>)
        requires
            self.wf(),
        ensures
            match r {
                Ok(d) => self@.contains_key(from@) && d@ == self@[from@] && d.wf(),
                Err(e) => e == LedgerError::AccountNotRegistered && !self@.contains_key(from@),
            },
    {
        match self.find_account(from) {
            Some(i) => {
                proof {
                    lemma_map_of_index(self.pairs(), i as int);
                    assert(self.deposits@[i as int].1.wf());
                }
                Ok(&self.deposits[i].1)
            },
            None => {
                proof {
                    lemma_map_of_contains(self.pairs(), from@);
                }
                Err(LedgerError::AccountNotRegistered)
            },
        }
    }

    /// Native deposit: credits the amount attached to the call to the
    /// caller's native balance. No invariant check is run, because a native
    /// deposit can only improve solvency, never worsen it — the last
    /// ensures clause states as much, at every storage unit price.
    pub fn deposit_near(&mut self, sender: &String, amount: u128) -> (r: Result<(), LedgerError>)
        requires
            old(self).wf(),
            old(self)@.contains_key(sender@) ==> old(self)@[sender@].near + amount <= u128::MAX,
        ensures
            final(self).wf(),
            match r {
                Ok(()) => old(self)@.contains_key(sender@) && final(self)@ == old(self)@.insert(
                    sender@,
                    (DepositView {
                        near: (old(self)@[sender@].near + amount) as u128,
                        ..old(self)@[sender@]
                    }),
                ),
                Err(e) => e == LedgerError::AccountNotRegistered && !old(self)@.contains_key(
                    sender@,
                ) && *final(self) == *old(self),
            },
            r is Ok ==> forall|p: u128|
                old(self)@[sender@].solvent(p) ==> final(self)@[sender@].solvent(p),
    {
        let i = match self.find_account(sender) {
            Some(i) => i,
            None => {
                proof {
                    lemma_map_of_contains(self.pairs(), sender@);
                }
                return Err(LedgerError::AccountNotRegistered);
            },
        };
        proof {
            lemma_map_of_index(self.pairs(), i as int);
        }
        let (key, mut d) = self.take(i);
        d.near = d.near + amount;
        self.put(key, d);
        proof {
            assert(self@ =~= old(self)@.insert(
                sender@,
                DepositView {
                    near: (old(self)@[sender@].near + amount) as u128,
                    ..old(self)@[sender@]
                },
            ));
        }
        Ok(())
    }

    /// Credit notification from an asset collaborator: the collaborator
    /// `token` reports that `sender_id` has already transferred `amount` of
    /// its asset to the ledger out-of-band. Credits the sender's record and
    /// returns the unused portion of the amount, always zero: the transfer
    /// is fully consumed, never partially refunded. Fails, consuming
    /// nothing, when the sender is not registered; the asset is then lost
    /// in the collaborator's view unless the collaborator itself guards
    /// against sending to unregistered accounts — a documented risk.
    pub fn ft_on_transfer(
        &mut self,
        token: &String,
        sender_id: &String,
        amount: u128,
        _msg: &String,
    ) -> (r: Result<u128, LedgerError>)
        requires
            old(self).wf(),
            old(self)@.contains_key(sender_id@) ==> old(self)@[sender_id@].token_bal(token@)
                + amount <= u128::MAX,
        ensures
            final(self).wf(),
            match r {
                Ok(unused) => unused == 0 && old(self)@.contains_key(sender_id@) && final(self)@
                    == old(self)@.insert(sender_id@, old(self)@[sender_id@].credit(token@, amount)),
                Err(e) => e == LedgerError::AccountNotRegistered && !old(self)@.contains_key(
                    sender_id@,
                ) && *final(self) == *old(self),
            },
            r is Ok ==> forall|p: u128|
                old(self)@[sender_id@].solvent(p) ==> final(self)@[sender_id@].solvent(p),
    {
        let i = match self.find_account(sender_id) {
            Some(i) => i,
            None => {
                proof {
                    lemma_map_of_contains(self.pairs(), sender_id@);
                }
                return Err(LedgerError::AccountNotRegistered);
            },
        };
        proof {
            lemma_map_of_index(self.pairs(), i as int);
        }
        let (key, mut d) = self.take(i);
        d.add(token, amount);
        self.put(key, d);
        proof {
            assert(self@ =~= old(self)@.insert(
                sender_id@,
                old(self)@[sender_id@].credit(token@, amount),
            ));
        }
        Ok(0)
    }

    /// Native withdrawal: checks that the remaining balance would still
    /// fund the record's storage, debits the caller, and describes the
    /// native transfer the host is to dispatch to the recipient (the caller
    /// when none is named). The debit is committed before the transfer is
    /// dispatched; in this execution model a native transfer is atomic with
    /// the call, so the ledger is never left short by it.
    pub fn withdraw_near_deposit(
        &mut self,
        sender: &String,
        amount: u128,
        recipient: Option<String>,
        storage_price: u128,
    ) -> (r: Result<NativeTransfer, LedgerError>)
        requires
            old(self).wf(),
        ensures
            final(self).wf(),
            match r {
                Ok(t) => old(self)@.contains_key(sender@) && old(self)@[sender@].covers_native(
                    amount,
                    storage_price,
                ) && t.amount == amount && t.recipient@ == (match recipient {
                    Some(a) => a@,
                    None => sender@,
                }) && final(self)@ == old(self)@.insert(
                    sender@,
                    (DepositView {
                        near: (old(self)@[sender@].near - amount) as u128,
                        ..old(self)@[sender@]
                    }),
                ) && final(self)@[sender@].solvent(storage_price),
                Err(e) => *final(self) == *old(self) && ((e == LedgerError::AccountNotRegistered
                    && !old(self)@.contains_key(sender@)) || (e
                    == LedgerError::InsufficientNativeBalance && old(self)@.contains_key(sender@)
                    && !old(self)@[sender@].covers_native(amount, storage_price))),
            },
    {
        let i = match self.find_account(sender) {
            Some(i) => i,
            None => {
                proof {
                    lemma_map_of_contains(self.pairs(), sender@);
                }
                return Err(LedgerError::AccountNotRegistered);
            },
        };
        proof {
            lemma_map_of_index(self.pairs(), i as int);
            assert(self.deposits@[i as int].1@ == self@[sender@]);
        }
        match self.deposits[i].1.assert_near(amount, storage_price) {
            Ok(()) => {},
            Err(e) => {
                return Err(e);
            },
        }
        let recipient_id = match recipient {
            Some(a) => a,
            None => sender.clone(),
        };
        let (key, mut d) = self.take(i);
        d.near = d.near - amount;
        self.put(key, d);
        proof {
            assert(self@ =~= old(self)@.insert(
                sender@,
                DepositView {
                    near: (old(self)@[sender@].near - amount) as u128,
                    ..old(self)@[sender@]
                },
            ));
        }
        Ok(NativeTransfer { recipient: recipient_id, amount })
    }

    /// Asset withdrawal: debits the caller's recorded balance of `token`,
    /// checks that the record's storage stays funded, commits, and then
    /// describes the asset transfer the host is to dispatch. Either every
    /// check passes and exactly the asset balance moves, or nothing does.
    /// The collaborator's confirmation is decoupled from this call: a
    /// transfer it later rejects leaves the ledger short by `amount`
    /// relative to the collaborator's view, an acknowledged reconciliation
    /// gap that no callback in this core reconciles.
    pub fn withdraw_token_deposit(
        &mut self,
        sender: &String,
        token: &String,
        amount: u128,
        recipient: Option<String>,
        mode: TokenTransferMode,
        storage_price: u128,
    ) -> (r: Result<TokenTransfer, LedgerError>)
        requires
            old(self).wf(),
        ensures
            final(self).wf(),
            match r {
                Ok(t) => old(self)@.contains_key(sender@) && old(self)@[sender@].can_debit(
                    token@,
                    amount,
                ) && old(self)@[sender@].solvent(storage_price) && t.token@ == token@ && t.amount
                    == amount && t.recipient@ == (match recipient {
                    Some(a) => a@,
                    None => sender@,
                }) && t.mode == mode && final(self)@ == old(self)@.insert(
                    sender@,
                    old(self)@[sender@].debit(token@, amount),
                ) && final(self)@[sender@].solvent(storage_price),
                Err(e) => *final(self) == *old(self) && ((e == LedgerError::AccountNotRegistered
                    && !old(self)@.contains_key(sender@)) || (e
                    == LedgerError::InsufficientAssetBalance && old(self)@.contains_key(sender@)
                    && !old(self)@[sender@].can_debit(token@, amount)) || (e
                    == LedgerError::StorageUnderfunded && old(self)@.contains_key(sender@)
                    && old(self)@[sender@].can_debit(token@, amount)
                    && !old(self)@[sender@].solvent(storage_price))),
            },
    {
        let i = match self.find_account(sender) {
            Some(i) => i,
            None => {
                proof {
                    lemma_map_of_contains(self.pairs(), sender@);
                }
                return Err(LedgerError::AccountNotRegistered);
            },
        };
        proof {
            lemma_map_of_index(self.pairs(), i as int);
            assert(self.deposits@[i as int].1@ == self@[sender@]);
            assert(self.deposits@[i as int].1.wf());
        }
        if !self.deposits[i].1.can_debit(token, amount) {
            return Err(LedgerError::InsufficientAssetBalance);
        }
        match self.deposits[i].1.assert_storage(storage_price) {
            Ok(()) => {},
            Err(e) => {
                return Err(e);
            },
        }
        let recipient_id = match recipient {
            Some(a) => a,
            None => sender.clone(),
        };
        let (key, mut d) = self.take(i);
        match d.remove(token, amount) {
            Ok(()) => {},
            Err(_) => {
                return unreached();
            },
        }
        self.put(key, d);
        proof {
            assert(self@ =~= old(self)@.insert(
                sender@,
                old(self)@[sender@].debit(token@, amount),
            ));
        }
        Ok(TokenTransfer { token: token.clone(), recipient: recipient_id, amount, mode })
    }
}

} // verus!
