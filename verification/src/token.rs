//! A sample fungible-token contract: the asset-issuer side of the trust
//! boundary, holding the true per-account balances that the ledger only
//! mirrors. Minting, burning and transferring keep one invariant: the total
//! supply is exactly the sum of all account balances.

use vstd::prelude::*;
use vstd::pervasive::unreached;

use crate::assoc::{
    lemma_index_le_sum, lemma_map_of_contains, lemma_map_of_index, lemma_map_of_push,
    lemma_map_of_replace, lemma_map_values_push, lemma_map_values_remove, lemma_sum_push,
    lemma_sum_remove, lemma_unique_push, map_of, sum_of, unique_keys,
};

verus! {

/// Why a token operation was refused.
#[derive(Clone, Copy, Debug, PartialEq, Eq, Structural)]
pub enum TokenError {
    /// The account has no balance entry; it must be registered first.
    AccountNotRegistered,
    /// The account's balance is below the requested amount.
    InsufficientBalance,
}

/// The token's books: one balance per registered account, and the total
/// supply, which always equals the sum of the balances.
pub struct FungibleToken {
    accounts: Vec<(String, u128)>,
    total_supply: u128,
}

impl View for FungibleToken {
    type V = Map<Seq<char>, u128>;

    closed spec fn view(&self) -> Map<Seq<char>, u128> {
        map_of(self.pairs())
    }
}

impl FungibleToken {
    /// The balance pairs, with identifiers read as character sequences.
    pub closed spec fn pairs(&self) -> Seq<(Seq<char>, u128)> {
        self.accounts@.map_values(|p: (String, u128)| (p.0@, p.1))
    }

    /// Well-formed: no account occurs twice, and the supply is the sum of
    /// the balances.
    pub closed spec fn wf(&self) -> bool {
        unique_keys(self.pairs()) && self.total_supply as int == sum_of(self.pairs())
    }

    /// Total minted supply not yet burned.
    pub closed spec fn supply(&self) -> u128 {
        self.total_supply
    }

    /// Balance of `account_id` as the books show it; zero when absent.
    pub open spec fn spec_balance_of(&self, a: Seq<char>) -> u128 {
        if self@.contains_key(a) {
            self@[a]
        } else {
            0
        }
    }

    /// Empty books: nobody registered, nothing minted.
    pub fn new() -> (t: FungibleToken)
        ensures
            t.wf(),
            t@ == Map::<Seq<char>, u128>::empty(),
            t.supply() == 0,
    {
        let t = FungibleToken { accounts: Vec::new(), total_supply: 0 };
        proof {
            assert(t.pairs() =~= Seq::<(Seq<char>, u128)>::empty());
        }
        t
    }

    /// Index of the balance entry of `id`, if any.
    fn find_account(&self, id: &String) -> (r: Option<usize>)
        ensures
            match r {
                Some(i) => i < self.pairs().len() && self.pairs()[i as int].0 == id@,
                None => forall|j: int| 0 <= j < self.pairs().len() ==> self.pairs()[j].0 != id@,
            },
    {
        let mut i: usize = 0;
        while i < self.accounts.len()
            invariant
                i <= self.accounts.len(),
                forall|j: int| 0 <= j < i ==> self.pairs()[j].0 != id@,
            decreases self.accounts.len() - i,
        {
            if self.accounts[i].0 == *id {
                return Some(i);
            }
            i += 1;
        }
        None
    }

    /// Whether the books hold an entry for `account_id`.
    pub fn contains_account(&self, account_id: &String) -> (r: bool)
        ensures
            r == self@.contains_key(account_id@),
    {
        proof {
            lemma_map_of_contains(self.pairs(), account_id@);
        }
        self.find_account(account_id).is_some()
    }

    /// Balance of `account_id`; zero when the account is not registered.
    pub fn ft_balance_of(&self, account_id: &String) -> (r: u128)
        requires
            self.wf(),
        ensures
            r == self.spec_balance_of(account_id@),
    {
        match self.find_account(account_id) {
            Some(i) => {
                proof {
                    lemma_map_of_index(self.pairs(), i as int);
                }
                self.accounts[i].1
            },
            None => {
                proof {
                    lemma_map_of_contains(self.pairs(), account_id@);
                }
                0
            },
        }
    }

    /// Opens an entry for a new account at balance zero. Registration of an
    /// account that is already on the books is left out here; callers check
    /// first.
    pub fn internal_register_account(&mut self, account_id: &String)
        requires
            old(self).wf(),
            !old(self)@.contains_key(account_id@),
        ensures
            final(self).wf(),
            final(self)@ == old(self)@.insert(account_id@, 0u128),
            final(self).supply() == old(self).supply(),
    {
        proof {
            lemma_map_of_contains(self.pairs(), account_id@);
            assert forall|j: int|
                0 <= j < self.pairs().len() implies self.pairs()[j].0 != account_id@ by {}
        }
        let ghost s = self.pairs();
        self.accounts.push((account_id.clone(), 0));
        proof {
            let f = |p: (String, u128)| (p.0@, p.1);
            lemma_map_values_push(old(self).accounts@, f, self.accounts@.last());
            assert(self.pairs() =~= s.push((account_id@, 0u128)));
            lemma_unique_push(s, account_id@, 0u128);
            lemma_map_of_push(s, account_id@, 0u128);
            lemma_sum_push(s, (account_id@, 0u128));
        }
    }

    /// Credits `amount` to a registered account and mints it into the
    /// supply. The supply bound is the one machine limit; the account's
    /// balance then fits as well, since no balance exceeds the supply.
    pub fn internal_deposit(&mut self, account_id: &String, amount: u128)
        requires
            old(self).wf(),
            old(self)@.contains_key(account_id@),
            old(self).supply() + amount <= u128::MAX,
        ensures
            final(self).wf(),
            final(self)@ == old(self)@.insert(
                account_id@,
                (old(self)@[account_id@] + amount) as u128,
            ),
            final(self).supply() == old(self).supply() + amount,
    {
        let ghost s = self.pairs();
        let i = match self.find_account(account_id) {
            Some(i) => i,
            None => {
                proof {
                    lemma_map_of_contains(s, account_id@);
                }
                unreached()
            },
        };
        proof {
            lemma_map_of_index(s, i as int);
            lemma_index_le_sum(s, i as int);
        }
        let (key, bal) = self.accounts.remove(i);
        self.accounts.push((key, bal + amount));
        self.total_supply = self.total_supply + amount;
        proof {
            let f = |p: (String, u128)| (p.0@, p.1);
            lemma_map_values_remove(old(self).accounts@, f, i as int);
            lemma_map_values_push(old(self).accounts@.remove(i as int), f, self.accounts@.last());
            assert(self.pairs() =~= s.remove(i as int).push((account_id@, (bal + amount) as u128)));
            lemma_map_of_replace(s, i as int, (bal + amount) as u128);
            lemma_sum_remove(s, i as int);
            lemma_sum_push(s.remove(i as int), (account_id@, (bal + amount) as u128));
        }
    }

    /// Debits `amount` from an account and burns it out of the supply.
    /// Fails, changing nothing, when the account is not registered or its
    /// balance is short.
    pub fn internal_withdraw(&mut self, account_id: &String, amount: u128) -> (r: Result<
        (),
        TokenError,
    >)
        requires
            old(self).wf(),
        ensures
            final(self).wf(),
            match r {
                Ok(()) => old(self)@.contains_key(account_id@) && amount
                    <= old(self)@[account_id@] && final(self)@ == old(self)@.insert(
                    account_id@,
                    (old(self)@[account_id@] - amount) as u128,
                ) && final(self).supply() == old(self).supply() - amount,
                Err(e) => *final(self) == *old(self) && ((e == TokenError::AccountNotRegistered
                    && !old(self)@.contains_key(account_id@)) || (e
                    == TokenError::InsufficientBalance && old(self)@.contains_key(account_id@)
                    && amount > old(self)@[account_id@])),
            },
    {
        let ghost s = self.pairs();
        let i = match self.find_account(account_id) {
            Some(i) => i,
            None => {
                proof {
                    lemma_map_of_contains(s, account_id@);
                }
                return Err(TokenError::AccountNotRegistered);
            },
        };
        proof {
            lemma_map_of_index(s, i as int);
            lemma_index_le_sum(s, i as int);
        }
        if self.accounts[i].1 < amount {
            return Err(TokenError::InsufficientBalance);
        }
        let (key, bal) = self.accounts.remove(i);
        self.accounts.push((key, bal - amount));
        self.total_supply = self.total_supply - amount;
        proof {
            let f = |p: (String, u128)| (p.0@, p.1);
            lemma_map_values_remove(old(self).accounts@, f, i as int);
            lemma_map_values_push(old(self).accounts@.remove(i as int), f, self.accounts@.last());
            assert(self.pairs() =~= s.remove(i as int).push((account_id@, (bal - amount) as u128)));
            lemma_map_of_replace(s, i as int, (bal - amount) as u128);
            lemma_sum_remove(s, i as int);
            lemma_sum_push(s.remove(i as int), (account_id@, (bal - amount) as u128));
        }
        Ok(())
    }
}

/// Descriptive metadata of the token, served to wallets and interfaces.
#[derive(Debug)]
pub struct FungibleTokenMetadata {
    pub spec: String,
    pub name: String,
    pub symbol: String,
    pub icon: Option<String>,
    pub reference: Option<String>,
    pub reference_hash: Option<Vec<u8>>,
    pub decimals: u8,
}

/// The sample token contract wrapping the books, as exposed to callers.
pub struct Contract {
    /// The books the contract keeps.
    pub token: FungibleToken,
}

impl Contract {
    /// The books the contract keeps.
    pub open spec fn balances(&self) -> Map<Seq<char>, u128> {
        self.token@
    }

    /// Well-formed: the books are.
    pub open spec fn wf(&self) -> bool {
        self.token.wf()
    }

    /// A fresh contract with empty books.
    pub fn new() -> (c: Contract)
        ensures
            c.wf(),
            c.balances() == Map::<Seq<char>, u128>::empty(),
            c.token.supply() == 0,
    {
        Contract { token: FungibleToken::new() }
    }

    /// Mints `amount` new units to `receiver_id`, registering the account
    /// first when it is not on the books yet. The memo is host-side logging
    /// only and plays no part in the books.
    pub fn ft_mint(&mut self, receiver_id: &String, amount: u128, _memo: Option<String>)
        requires
            old(self).wf(),
            old(self).token.supply() + amount <= u128::MAX,
        ensures
            final(self).wf(),
            final(self).balances() == old(self).balances().insert(
                receiver_id@,
                (old(self).token.spec_balance_of(receiver_id@) + amount) as u128,
            ),
            final(self).token.supply() == old(self).token.supply() + amount,
    {
        if !self.token.contains_account(receiver_id) {
            self.token.internal_register_account(receiver_id);
        }
        self.token.internal_deposit(receiver_id, amount);
        proof {
            assert(self.balances() =~= old(self).balances().insert(
                receiver_id@,
                (old(self).token.spec_balance_of(receiver_id@) + amount) as u128,
            ));
        }
    }

    /// Burns `amount` units of `account_id`; fails, changing nothing, when
    /// the account is not registered or its balance is short.
    pub fn ft_burn(&mut self, account_id: &String, amount: u128) -> (r: Result<(), TokenError>)
        requires
            old(self).wf(),
        ensures
            final(self).wf(),
            match r {
                Ok(()) => old(self).balances().contains_key(account_id@) && amount <= old(
                    self,
                ).balances()[account_id@] && final(self).balances() == old(
                    self,
                ).balances().insert(
                    account_id@,
                    (old(self).balances()[account_id@] - amount) as u128,
                ) && final(self).token.supply() == old(self).token.supply() - amount,
                Err(e) => *final(self) == *old(self) && ((e == TokenError::AccountNotRegistered
                    && !old(self).balances().contains_key(account_id@)) || (e
                    == TokenError::InsufficientBalance && old(self).balances().contains_key(
                    account_id@,
                ) && amount > old(self).balances()[account_id@])),
            },
    {
        self.token.internal_withdraw(account_id, amount)
    }

    /// Balance of `account_id`; zero when the account is not registered.
    pub fn ft_balance_of(&self, account_id: &String) -> (r: u128)
        requires
            self.wf(),
        ensures
            r == self.token.spec_balance_of(account_id@),
    {
        self.token.ft_balance_of(account_id)
    }

    /// Total minted supply not yet burned.
    pub fn ft_total_supply(&self) -> (r: u128)
        ensures
            r == self.token.supply(),
    {
        self.token.total_supply
    }

    /// Registers `account_id` at balance zero; registering an account that
    /// is already on the books leaves them unchanged.
    pub fn register_account(&mut self, account_id: &String)
        requires
            old(self).wf(),
        ensures
            final(self).wf(),
            final(self).balances() == if old(self).balances().contains_key(account_id@) {
                old(self).balances()
            } else {
                old(self).balances().insert(account_id@, 0u128)
            },
            final(self).token.supply() == old(self).token.supply(),
    {
        if !self.token.contains_account(account_id) {
            self.token.internal_register_account(account_id);
        }
    }

    /// The token's descriptive metadata: a fixed value, independent of the
    /// books.
    pub fn ft_metadata(&self) -> (m: FungibleTokenMetadata)
        ensures
            m.spec@ == "v0.1.0"@,
            m.name@ == "test token"@,
            m.symbol@ == "afi-tt"@,
            m.icon is None,
            m.reference is None,
            m.reference_hash is None,
            m.decimals == 24,
    {
        FungibleTokenMetadata {
            spec: String::from_str("v0.1.0"),
            name: String::from_str("test token"),
            symbol: String::from_str("afi-tt"),
            icon: None,
            reference: None,
            reference_hash: None,
            decimals: 24,
        }
    }

    /// Moves `amount` units from `sender_id` to `receiver_id`. A transfer
    /// must move a positive amount between two different accounts; it
    /// fails, changing nothing, when either account is off the books or the
    /// sender's balance is short.
    pub fn ft_transfer(&mut self, sender_id: &String, receiver_id: &String, amount: u128) -> (r:
        Result<(), TokenError>)
        requires
            old(self).wf(),
            sender_id@ != receiver_id@,
            amount >= 1,
        ensures
            final(self).wf(),
            final(self).token.supply() == old(self).token.supply(),
            match r {
                Ok(()) => old(self).balances().contains_key(sender_id@) && old(
                    self,
                ).balances().contains_key(receiver_id@) && amount <= old(
                    self,
                ).balances()[sender_id@] && final(self).balances() == old(self).balances().insert(
                    sender_id@,
                    (old(self).balances()[sender_id@] - amount) as u128,
                ).insert(receiver_id@, (old(self).balances()[receiver_id@] + amount) as u128),
                Err(e) => *final(self) == *old(self) && ((e == TokenError::AccountNotRegistered && (
                !old(self).balances().contains_key(sender_id@) || !old(
                    self,
                ).balances().contains_key(receiver_id@))) || (e == TokenError::InsufficientBalance
                    && old(self).balances().contains_key(sender_id@) && old(
                    self,
                ).balances().contains_key(receiver_id@) && amount > old(
                    self,
                ).balances()[sender_id@])),
            },
    {
        if !self.token.contains_account(receiver_id) {
            return Err(TokenError::AccountNotRegistered);
        }
        match self.token.internal_withdraw(sender_id, amount) {
            Ok(()) => {},
            Err(e) => {
                return Err(e);
            },
        }
        proof {
            lemma_map_of_contains(self.token.pairs(), receiver_id@);
        }
        self.token.internal_deposit(receiver_id, amount);
        Ok(())
    }
}

} // verus!
