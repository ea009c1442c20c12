//! The competition: owns the participants' vaults, opens registration until
//! the competition starts, and routes trades through the swap engine while it
//! runs.

use vstd::prelude::*;
use crate::asset::{AssetId, Bucket};
use crate::decimal::{Decimal, ATTOS_PER_UNIT};
use crate::error::{CompetitionError, ErrorKind};
use crate::oracle::SimpleOracle;
use crate::time::Instant;
use crate::trade_simulator::{lemma_swap_output_nonnegative, swap_output, trade_result, TradeSimulator};
use crate::trade_vault::{
    balance_in, can_deposit, can_withdraw, deposited, withdrawn, TradeVault,
};

verus! {

/// Whole units of the stable asset granted to each participant on registering.
pub const INITIAL_GRANT_UNITS: i64 = 10000;

/// The stable-unit grant that a new vault starts with.
pub open spec fn initial_grant() -> Decimal {
    Decimal { attos: (INITIAL_GRANT_UNITS * ATTOS_PER_UNIT) as i128 }
}

/// A presented credential: a badge of some resource class, with the local
/// identifier of the badge, which names the participant.
#[derive(Debug)]
pub struct Credential {
    pub resource: AssetId,
    pub local_id: String,
}

/// Vaults by identity, as recorded in `entries`.
pub open spec fn vault_map(entries: Seq<(String, TradeVault)>) -> Map<
    Seq<char>,
    Map<AssetId, Decimal>,
> {
    Map::new(
        |k: Seq<char>| exists|i: int| 0 <= i < entries.len() && entries[i].0@ == k,
        |k: Seq<char>|
            entries[choose|i: int| 0 <= i < entries.len() && entries[i].0@ == k].1@,
    )
}

/// No identity has two vaults in `entries`, and every vault is well formed.
pub open spec fn vault_entries_wf(entries: Seq<(String, TradeVault)>) -> bool {
    &&& forall|i: int, j: int|
        0 <= i < entries.len() && 0 <= j < entries.len() && i != j ==> entries[i].0@
            != entries[j].0@
    &&& forall|i: int| 0 <= i < entries.len() ==> (#[trigger] entries[i]).1.wf()
}

proof fn lemma_vault_entry(entries: Seq<(String, TradeVault)>, i: int)
    requires
        vault_entries_wf(entries),
        0 <= i < entries.len(),
    ensures
        vault_map(entries).contains_key(entries[i].0@),
        vault_map(entries)[entries[i].0@] == entries[i].1@,
{
    let k = entries[i].0@;
    assert(vault_map(entries).contains_key(k));
    let j = choose|j: int| 0 <= j < entries.len() && entries[j].0@ == k;
    assert(j == i);
}

/// Replacing the entry at `i` by one for the same identity replaces that
/// identity's vault.
proof fn lemma_vault_replace(
    entries: Seq<(String, TradeVault)>,
    i: int,
    entry: (String, TradeVault),
)
    requires
        vault_entries_wf(entries),
        0 <= i < entries.len(),
        entries[i].0@ == entry.0@,
        entry.1.wf(),
    ensures
        vault_entries_wf(entries.update(i, entry)),
        vault_map(entries.update(i, entry)) == vault_map(entries).insert(entry.0@, entry.1@),
{
    let after = entries.update(i, entry);
    let expected = vault_map(entries).insert(entry.0@, entry.1@);
    assert(vault_entries_wf(after));
    assert forall|k: Seq<char>| #[trigger]
        vault_map(after).contains_key(k) == expected.contains_key(k) by {
        if vault_map(entries).contains_key(k) {
            let j = choose|j: int| 0 <= j < entries.len() && entries[j].0@ == k;
            assert(after[j].0@ == k);
        }
        if k == entry.0@ {
            assert(after[i].0@ == k);
        }
        if vault_map(after).contains_key(k) {
            let j = choose|j: int| 0 <= j < after.len() && after[j].0@ == k;
            if j != i {
                assert(entries[j].0@ == k);
            }
        }
    }
    assert forall|k: Seq<char>| #[trigger]
        vault_map(after).contains_key(k) implies vault_map(after)[k] == expected[k] by {
        let j = choose|j: int| 0 <= j < after.len() && after[j].0@ == k;
        lemma_vault_entry(after, j);
        if j != i {
            lemma_vault_entry(entries, j);
        }
    }
    assert(vault_map(after) =~= expected);
}

/// Appending an entry for an identity without a vault adds that vault.
proof fn lemma_vault_push(entries: Seq<(String, TradeVault)>, entry: (String, TradeVault))
    requires
        vault_entries_wf(entries),
        !vault_map(entries).contains_key(entry.0@),
        entry.1.wf(),
    ensures
        vault_entries_wf(entries.push(entry)),
        vault_map(entries.push(entry)) == vault_map(entries).insert(entry.0@, entry.1@),
{
    let after = entries.push(entry);
    let n = entries.len() as int;
    let expected = vault_map(entries).insert(entry.0@, entry.1@);
    assert forall|i: int| 0 <= i < n implies entries[i].0@ != entry.0@ by {
        if entries[i].0@ == entry.0@ {
            assert(vault_map(entries).contains_key(entry.0@));
        }
    }
    assert(vault_entries_wf(after));
    assert forall|k: Seq<char>| #[trigger]
        vault_map(after).contains_key(k) == expected.contains_key(k) by {
        if vault_map(entries).contains_key(k) {
            let j = choose|j: int| 0 <= j < entries.len() && entries[j].0@ == k;
            assert(after[j].0@ == k);
        }
        if k == entry.0@ {
            assert(after[n].0@ == k);
        }
        if vault_map(after).contains_key(k) {
            let j = choose|j: int| 0 <= j < after.len() && after[j].0@ == k;
            if j != n {
                assert(entries[j].0@ == k);
            }
        }
    }
    assert forall|k: Seq<char>| #[trigger]
        vault_map(after).contains_key(k) implies vault_map(after)[k] == expected[k] by {
        let j = choose|j: int| 0 <= j < after.len() && after[j].0@ == k;
        lemma_vault_entry(after, j);
        if j != n {
            lemma_vault_entry(entries, j);
        }
    }
    assert(vault_map(after) =~= expected);
}

/// A trading competition with a window `[competition_start,
/// competition_end)`; registration is open strictly before the start.
pub struct Competition {
    competition_start: Instant,
    competition_end: Instant,
    user_asset_vaults: Vec<(String, TradeVault)>,
    fusd_resource_address: AssetId,
    user_token_resource_address: AssetId,
}

impl Competition {
    pub closed spec fn start(&self) -> Instant {
        self.competition_start
    }

    pub closed spec fn end(&self) -> Instant {
        self.competition_end
    }

    /// The stable asset that new vaults are seeded with.
    pub closed spec fn fusd(&self) -> AssetId {
        self.fusd_resource_address
    }

    /// The resource class that credentials must belong to.
    pub closed spec fn user_token(&self) -> AssetId {
        self.user_token_resource_address
    }

    /// Each registered identity's balances.
    pub closed spec fn vaults(&self) -> Map<Seq<char>, Map<AssetId, Decimal>> {
        vault_map(self.user_asset_vaults@)
    }

    pub closed spec fn wf(&self) -> bool {
        vault_entries_wf(self.user_asset_vaults@)
    }

    /// The identity that `credential` proves, if it is of the accepted class.
    pub open spec fn identity_of(&self, credential: Credential) -> Option<Seq<char>> {
        if credential.resource == self.user_token() {
            Some(credential.local_id@)
        } else {
            None
        }
    }

    /// A competition running over `[competition_start, competition_end)`,
    /// with no participant yet.
    pub fn instantiate(
        competition_start: Instant,
        competition_end: Instant,
        fusd_resource_address: AssetId,
        user_token_resource_address: AssetId,
    ) -> (r: Result<Competition, CompetitionError>)
        ensures
            competition_start.seconds_since_unix_epoch < competition_end.seconds_since_unix_epoch
                <==> r is Ok,
            r is Err ==> r == Err::<Competition, CompetitionError>(
                CompetitionError::InvalidWindow,
            ),
            r matches Ok(c) ==> {
                &&& c.wf()
                &&& c.start() == competition_start
                &&& c.end() == competition_end
                &&& c.fusd() == fusd_resource_address
                &&& c.user_token() == user_token_resource_address
                &&& c.vaults() == Map::<Seq<char>, Map<AssetId, Decimal>>::empty()
            },
    {
        if !competition_start.is_before(&competition_end) {
            return Err(CompetitionError::InvalidWindow);
        }
        let c = Competition {
            competition_start,
            competition_end,
            user_asset_vaults: Vec::new(),
            fusd_resource_address,
            user_token_resource_address,
        };
        assert(c.vaults() =~= Map::<Seq<char>, Map<AssetId, Decimal>>::empty());
        Ok(c)
    }

    fn find_vault(&self, user_id: &String) -> (r: Option<usize>)
        ensures
            match r {
                Some(i) => i < self.user_asset_vaults@.len() && self.user_asset_vaults@[i as int].0@
                    == user_id@,
                None => !self.vaults().contains_key(user_id@),
            },
    {
        let mut i: usize = 0;
        while i < self.user_asset_vaults.len()
            invariant
                i <= self.user_asset_vaults@.len(),
                forall|j: int| 0 <= j < i ==> self.user_asset_vaults@[j].0@ != user_id@,
            decreases self.user_asset_vaults@.len() - i,
        {
            if self.user_asset_vaults[i].0 == *user_id {
                return Some(i);
            }
            i = i + 1;
        }
        assert(!self.vaults().contains_key(user_id@)) by {
            if self.vaults().contains_key(user_id@) {
                let j = choose|j: int|
                    0 <= j < self.user_asset_vaults@.len()
                        && self.user_asset_vaults@[j].0@ == user_id@;
                assert(self.user_asset_vaults@[j].0@ != user_id@);
            }
        }
        None
    }

    /// Registration is open at `now`: the competition has not started.
    fn assert_competition_not_started(&self, now: Instant) -> (r: Result<(), CompetitionError>)
        ensures
            now.seconds_since_unix_epoch < self.start().seconds_since_unix_epoch <==> r is Ok,
            r is Err ==> r == Err::<(), CompetitionError>(CompetitionError::RegistrationClosed),
    {
        if now.is_before(&self.competition_start) {
            Ok(())
        } else {
            Err(CompetitionError::RegistrationClosed)
        }
    }

    /// Trading is open at `now`: the competition has started and not ended.
    fn assert_competition_running(&self, now: Instant) -> (r: Result<(), CompetitionError>)
        ensures
            now.seconds_since_unix_epoch < self.start().seconds_since_unix_epoch ==> r == Err::<
                (),
                CompetitionError,
            >(CompetitionError::TradingNotStarted),
            self.start().seconds_since_unix_epoch <= now.seconds_since_unix_epoch
                && now.seconds_since_unix_epoch >= self.end().seconds_since_unix_epoch ==> r
                == Err::<(), CompetitionError>(CompetitionError::TradingEnded),
            self.start().seconds_since_unix_epoch <= now.seconds_since_unix_epoch
                < self.end().seconds_since_unix_epoch ==> r is Ok,
    {
        if now.is_before(&self.competition_start) {
            return Err(CompetitionError::TradingNotStarted);
        }
        if !now.is_before(&self.competition_end) {
            return Err(CompetitionError::TradingEnded);
        }
        Ok(())
    }

    /// The identity that `user_token_proof` proves, or `InvalidCredential`
    /// where it is not of the accepted class.
    fn extract_user_id(&self, user_token_proof: &Credential) -> (r: Result<
        String,
        CompetitionError,
    >)
        ensures
            match r {
                Ok(id) => self.identity_of(*user_token_proof) == Some(id@),
                Err(e) => self.identity_of(*user_token_proof) is None && e
                    == CompetitionError::InvalidCredential,
            },
    {
        if user_token_proof.resource != self.user_token_resource_address {
            return Err(CompetitionError::InvalidCredential);
        }
        Ok(user_token_proof.local_id.clone())
    }

    /// What a trade of `amount` of `from` into `to`, presented with
    /// `credential` at `now`, makes of the trader's vault, given the engine's
    /// allow-list `allowed` and the oracle's `prices`.
    pub open spec fn trade_outcome(
        &self,
        allowed: Set<AssetId>,
        prices: Map<AssetId, Decimal>,
        credential: Credential,
        from: AssetId,
        to: AssetId,
        amount: Decimal,
        now: Instant,
    ) -> Result<Map<AssetId, Decimal>, CompetitionError> {
        if now.seconds_since_unix_epoch < self.start().seconds_since_unix_epoch {
            Err(CompetitionError::TradingNotStarted)
        } else if now.seconds_since_unix_epoch >= self.end().seconds_since_unix_epoch {
            Err(CompetitionError::TradingEnded)
        } else {
            match self.identity_of(credential) {
                None => Err(CompetitionError::InvalidCredential),
                Some(id) => {
                    if !self.vaults().contains_key(id) {
                        Err(CompetitionError::VaultNotFound)
                    } else if amount.attos < 0 {
                        Err(CompetitionError::NegativeAmount)
                    } else if !can_withdraw(self.vaults()[id], from, amount) {
                        Err(CompetitionError::InsufficientBalance { asset: from })
                    } else {
                        match trade_result(allowed, prices, Bucket { resource: from, amount }, to) {
                            Err(e) => Err(e),
                            Ok(out) => {
                                let rest = withdrawn(self.vaults()[id], from, amount);
                                if !can_deposit(rest, to, out.amount) {
                                    Err(CompetitionError::Overflow)
                                } else {
                                    Ok(deposited(rest, to, out.amount))
                                }
                            },
                        }
                    }
                },
            }
        }
    }

    /// Registers the identity that `user_token_proof` proves, with a new vault
    /// holding the initial grant of the stable asset; a vault that the
    /// identity held before is replaced.
    pub fn register(&mut self, user_token_proof: &Credential, now: Instant) -> (r: Result<
        (),
        CompetitionError,
    >)
        requires
            old(self).wf(),
        ensures
            final(self).wf(),
            final(self).start() == old(self).start(),
            final(self).end() == old(self).end(),
            final(self).fusd() == old(self).fusd(),
            final(self).user_token() == old(self).user_token(),
            now.seconds_since_unix_epoch >= old(self).start().seconds_since_unix_epoch ==> r
                == Err::<(), CompetitionError>(CompetitionError::RegistrationClosed),
            now.seconds_since_unix_epoch < old(self).start().seconds_since_unix_epoch
                && old(self).identity_of(*user_token_proof) is None ==> r == Err::<
                (),
                CompetitionError,
            >(CompetitionError::InvalidCredential),
            r is Err ==> *final(self) == *old(self),
            now.seconds_since_unix_epoch < old(self).start().seconds_since_unix_epoch
                && old(self).identity_of(*user_token_proof) is Some ==> {
                &&& r is Ok
                &&& final(self).vaults() == old(self).vaults().insert(
                    user_token_proof.local_id@,
                    Map::<AssetId, Decimal>::empty().insert(old(self).fusd(), initial_grant()),
                )
            },
    {
        self.assert_competition_not_started(now)?;
        let user_id = self.extract_user_id(user_token_proof)?;
        let grant = Decimal::from_units(INITIAL_GRANT_UNITS);
        let fusd_bucket = Bucket { resource: self.fusd_resource_address, amount: grant };
        let user_asset_vault = TradeVault::instantiate(fusd_bucket);
        let ghost entry = (user_id, user_asset_vault);
        match self.find_vault(&user_id) {
            Some(i) => {
                proof {
                    lemma_vault_replace(self.user_asset_vaults@, i as int, entry);
                }
                self.user_asset_vaults.set(i, (user_id, user_asset_vault));
            },
            None => {
                proof {
                    lemma_vault_push(self.user_asset_vaults@, entry);
                }
                self.user_asset_vaults.push((user_id, user_asset_vault));
            },
        }
        Ok(())
    }

    /// Trades `amount` of `from_address` in the vault of the identity that
    /// `user_token_proof` proves into `to_address`, through `trade_simulator`
    /// at the prices of `oracle`. Withdrawal, conversion and deposit take
    /// effect together or not at all.
    pub fn trade(
        &mut self,
        trade_simulator: &TradeSimulator,
        oracle: &SimpleOracle,
        user_token_proof: &Credential,
        from_address: AssetId,
        to_address: AssetId,
        amount: Decimal,
        now: Instant,
    ) -> (r: Result<(), CompetitionError>)
        requires
            old(self).wf(),
            oracle.wf(),
        ensures
            final(self).wf(),
            match old(self).trade_outcome(
                trade_simulator@,
                oracle@,
                *user_token_proof,
                from_address,
                to_address,
                amount,
                now,
            ) {
                Ok(v) => {
                    &&& r is Ok
                    &&& final(self).start() == old(self).start()
                    &&& final(self).end() == old(self).end()
                    &&& final(self).fusd() == old(self).fusd()
                    &&& final(self).user_token() == old(self).user_token()
                    &&& final(self).vaults() == old(self).vaults().insert(
                        user_token_proof.local_id@,
                        v,
                    )
                },
                Err(e) => r == Err::<(), CompetitionError>(e) && *final(self) == *old(self),
            },
            !(old(self).start().seconds_since_unix_epoch <= now.seconds_since_unix_epoch
                < old(self).end().seconds_since_unix_epoch) ==> {
                &&& r is Err
                &&& r->Err_0.spec_kind() == ErrorKind::State
                &&& *final(self) == *old(self)
            },
            r is Ok && from_address != to_address ==> {
                let id = user_token_proof.local_id@;
                &&& balance_in(final(self).vaults()[id], from_address) == balance_in(
                    old(self).vaults()[id],
                    from_address,
                ) - amount.attos
                &&& balance_in(final(self).vaults()[id], to_address) == balance_in(
                    old(self).vaults()[id],
                    to_address,
                ) + swap_output(
                    amount.attos as int,
                    oracle@[from_address].attos as int,
                    oracle@[to_address].attos as int,
                )
            },
            ({
                let id = user_token_proof.local_id@;
                &&& old(self).start().seconds_since_unix_epoch <= now.seconds_since_unix_epoch
                    < old(self).end().seconds_since_unix_epoch
                &&& old(self).identity_of(*user_token_proof) is Some
                &&& old(self).vaults().contains_key(id)
                &&& 0 <= amount.attos
            }) ==> {
                let id = user_token_proof.local_id@;
                let v = old(self).vaults()[id];
                &&& amount.attos > balance_in(v, from_address) ==> r == Err::<
                    (),
                    CompetitionError,
                >((CompetitionError::InsufficientBalance { asset: from_address }))
                &&& can_withdraw(v, from_address, amount) && !trade_simulator@.contains(
                    from_address,
                ) ==> r == Err::<(), CompetitionError>(
                    (CompetitionError::AssetNotAllowed { asset: from_address }),
                )
                &&& can_withdraw(v, from_address, amount) && trade_simulator@.contains(
                    from_address,
                ) && !(oracle@.contains_key(from_address) && oracle@.contains_key(to_address))
                    ==> r is Err && r->Err_0.spec_kind() == ErrorKind::NotFound
                &&& r is Err ==> *final(self) == *old(self)
            },
    {
        self.assert_competition_running(now)?;
        let user_id = self.extract_user_id(user_token_proof)?;
        let idx = match self.find_vault(&user_id) {
            Some(i) => i,
            None => return Err(CompetitionError::VaultNotFound),
        };
        proof {
            lemma_vault_entry(self.user_asset_vaults@, idx as int);
        }
        // Nothing is changed until every step of the trade is known to succeed.
        let ghost v = self.user_asset_vaults@[idx as int].1@;
        if amount.is_negative() {
            return Err(CompetitionError::NegativeAmount);
        }
        let from_balance = self.user_asset_vaults[idx].1.balance_of(from_address);
        if !self.user_asset_vaults[idx].1.holds(from_address) || from_balance.attos < amount.attos {
            return Err(CompetitionError::InsufficientBalance { asset: from_address });
        }
        let from_token_bucket = Bucket { resource: from_address, amount };
        let to_token_bucket = trade_simulator.trade(oracle, from_token_bucket, to_address)?;
        proof {
            oracle.lemma_prices_nonnegative();
            assert(oracle@.contains_key(from_address) && oracle@.contains_key(to_address));
            lemma_swap_output_nonnegative(
                amount.attos as int,
                oracle@[from_address].attos as int,
                oracle@[to_address].attos as int,
            );
        }
        let to_balance = if to_address == from_address {
            Decimal { attos: from_balance.attos - amount.attos }
        } else {
            self.user_asset_vaults[idx].1.balance_of(to_address)
        };
        assert(to_balance.attos == balance_in(withdrawn(v, from_address, amount), to_address));
        if to_balance.attos > i128::MAX - to_token_bucket.amount.attos {
            return Err(CompetitionError::Overflow);
        }
        // Every check has passed, so neither the withdrawal nor the deposit can
        // fail: the vault changes only here, and all at once.
        let ghost entries = self.user_asset_vaults@;
        let entry = &mut self.user_asset_vaults[idx];
        let withdrawal = entry.1.withdraw_asset(from_address, amount);
        let deposit = entry.1.deposit_asset(to_token_bucket);
        assert(withdrawal is Ok && deposit is Ok);
        proof {
            lemma_vault_replace(entries, idx as int, self.user_asset_vaults@[idx as int]);
            assert(entries.update(idx as int, self.user_asset_vaults@[idx as int])
                =~= self.user_asset_vaults@);
        }
        Ok(())
    }

    /// Replaces the start of the competition; the end is not checked against it.
    pub fn set_competition_start_time(&mut self, time: Instant)
        requires
            old(self).wf(),
        ensures
            final(self).wf(),
            final(self).start() == time,
            final(self).end() == old(self).end(),
            final(self).fusd() == old(self).fusd(),
            final(self).user_token() == old(self).user_token(),
            final(self).vaults() == old(self).vaults(),
    {
        self.competition_start = time;
    }

    /// Replaces the end of the competition; the start is not checked against it.
    pub fn set_competition_end_time(&mut self, time: Instant)
        requires
            old(self).wf(),
        ensures
            final(self).wf(),
            final(self).start() == old(self).start(),
            final(self).end() == time,
            final(self).fusd() == old(self).fusd(),
            final(self).user_token() == old(self).user_token(),
            final(self).vaults() == old(self).vaults(),
    {
        self.competition_end = time;
    }

    pub fn get_competition_start_time(&self) -> (r: Instant)
        ensures
            r == self.start(),
    {
        self.competition_start
    }

    pub fn get_competition_end_time(&self) -> (r: Instant)
        ensures
            r == self.end(),
    {
        self.competition_end
    }

    /// The balance of `asset` in the vault of `user_id`, or `None` where that
    /// identity has not registered.
    pub fn vault_balance(&self, user_id: &String, asset: AssetId) -> (r: Option<Decimal>)
        requires
            self.wf(),
        ensures
            r is Some == self.vaults().contains_key(user_id@),
            r is Some ==> r->Some_0.attos == balance_in(self.vaults()[user_id@], asset),
    {
        match self.find_vault(user_id) {
            Some(i) => {
                proof {
                    lemma_vault_entry(self.user_asset_vaults@, i as int);
                }
                Some(self.user_asset_vaults[i].1.balance_of(asset))
            },
            None => {
                None
            },
        }
    }

    /// Whether the vault of `user_id` has a balance entry for `asset`; `false`
    /// where that identity has not registered.
    pub fn vault_holds(&self, user_id: &String, asset: AssetId) -> (r: bool)
        requires
            self.wf(),
        ensures
            r == (self.vaults().contains_key(user_id@) && self.vaults()[user_id@].contains_key(
                asset,
            )),
    {
        match self.find_vault(user_id) {
            Some(i) => {
                proof {
                    lemma_vault_entry(self.user_asset_vaults@, i as int);
                }
                self.user_asset_vaults[i].1.holds(asset)
            },
            None => {
                false
            },
        }
    }
}

} // verus!
