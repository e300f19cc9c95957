//! The wallet ledger: for each owner and each token a balance that never goes
//! below zero.
//!
//! A wallet comes into being the first time its owner is touched, with no
//! balance at all. A token that a wallet does not list has the balance zero.

use vstd::prelude::*;
use candid::Nat;
use candid::Principal;
use crate::common_types::TradeError;
use crate::outside::{nat_add, nat_clone, nat_from_u128, nat_lt, nat_sub, nat_value, principal_eq};
use crate::pair::{lowercase, to_lowercase};

verus! {

/// The balance of one token in one wallet.
#[derive(Debug)]
pub struct TokenBalance {
    pub token: String,
    pub amount: Nat,
}

/// The wallet of one owner.
#[derive(Debug)]
pub struct WalletBalance {
    pub owner: Principal,
    pub balances: Vec<TokenBalance>,
    pub last_updated: u64,
}

/// What a wallet holds: a balance for each token it lists, and the time of
/// its last change.
pub struct WalletView {
    pub owner: Principal,
    pub balances: Map<Seq<char>, nat>,
    pub last_updated: u64,
}

/// All wallets, by owner.
pub type LedgerView = Map<Principal, WalletView>;

/// No two entries name the same token.
pub open spec fn tokens_distinct(entries: Seq<TokenBalance>) -> bool {
    forall|i: int, j: int|
        0 <= i < j < entries.len() ==> #[trigger] entries[i].token@ != #[trigger] entries[j].token@
}

/// The balances that a list of entries stands for.
pub open spec fn balances_of(entries: Seq<TokenBalance>) -> Map<Seq<char>, nat>
    decreases entries.len(),
{
    if entries.len() == 0 {
        Map::empty()
    } else {
        balances_of(entries.drop_last()).insert(
            entries.last().token@,
            nat_value(entries.last().amount),
        )
    }
}

/// No two wallets belong to the same owner.
pub open spec fn owners_distinct(wallets: Seq<WalletBalance>) -> bool {
    forall|i: int, j: int|
        0 <= i < j < wallets.len() ==> #[trigger] wallets[i].owner != #[trigger] wallets[j].owner
}

/// The ledger that a list of wallets stands for.
pub open spec fn wallets_of(wallets: Seq<WalletBalance>) -> LedgerView
    decreases wallets.len(),
{
    if wallets.len() == 0 {
        Map::empty()
    } else {
        wallets_of(wallets.drop_last()).insert(wallets.last().owner, wallets.last()@)
    }
}

impl View for WalletBalance {
    type V = WalletView;

    open spec fn view(&self) -> WalletView {
        WalletView {
            owner: self.owner,
            balances: balances_of(self.balances@),
            last_updated: self.last_updated,
        }
    }
}

impl WalletBalance {
    /// A wallet lists each token once.
    pub open spec fn wf(&self) -> bool {
        tokens_distinct(self.balances@)
    }
}

/// The wallet that `owner` has before anything was moved: no balances, and
/// `now` as the time of its creation.
pub open spec fn empty_wallet(owner: Principal, now: u64) -> WalletView {
    WalletView { owner, balances: Map::empty(), last_updated: now }
}

/// The wallet of `owner`, or the one that is created at `now` if there is none.
pub open spec fn wallet_in(ledger: LedgerView, owner: Principal, now: u64) -> WalletView {
    if ledger.dom().contains(owner) {
        ledger[owner]
    } else {
        empty_wallet(owner, now)
    }
}

/// The balance of token `key` in a wallet: zero for a token it does not list.
pub open spec fn amount_in(wallet: WalletView, key: Seq<char>) -> nat {
    if wallet.balances.dom().contains(key) {
        wallet.balances[key]
    } else {
        0
    }
}

/// The balance that `owner` has of token `key`: zero without a wallet.
pub open spec fn balance_in(ledger: LedgerView, owner: Principal, key: Seq<char>) -> nat {
    if ledger.dom().contains(owner) {
        amount_in(ledger[owner], key)
    } else {
        0
    }
}

/// The ledger after the balance that `owner` has of `key` was set to `value`,
/// in a wallet last changed at `stamp`.
pub open spec fn with_balance(
    ledger: LedgerView,
    owner: Principal,
    key: Seq<char>,
    value: nat,
    stamp: u64,
) -> LedgerView {
    ledger.insert(
        owner,
        WalletView {
            owner,
            balances: wallet_in(ledger, owner, stamp).balances.insert(key, value),
            last_updated: stamp,
        },
    )
}

/// The ledger after `amount` was added to the balance that `owner` has of
/// `key`, at time `now`.
pub open spec fn credited(
    ledger: LedgerView,
    owner: Principal,
    key: Seq<char>,
    amount: nat,
    now: u64,
) -> LedgerView {
    with_balance(ledger, owner, key, balance_in(ledger, owner, key) + amount, now)
}

/// The ledger after `amount` was taken from the balance that `owner` has of
/// `key`, at time `now`. Meant for an amount that the balance covers.
pub open spec fn debited(
    ledger: LedgerView,
    owner: Principal,
    key: Seq<char>,
    amount: nat,
    now: u64,
) -> LedgerView {
    with_balance(ledger, owner, key, (balance_in(ledger, owner, key) - amount) as nat, now)
}

/// The ledger after a withdrawal of `key` from `owner` was refused at `now`:
/// the wallet exists and lists the token, and no balance has changed.
pub open spec fn refused(ledger: LedgerView, owner: Principal, key: Seq<char>, now: u64) -> LedgerView {
    with_balance(
        ledger,
        owner,
        key,
        balance_in(ledger, owner, key),
        wallet_in(ledger, owner, now).last_updated,
    )
}

/// The wallet ledger. It owns every wallet; balances change only through the
/// functions of this module.
pub struct Ledger {
    wallets: Vec<WalletBalance>,
}

impl View for Ledger {
    type V = LedgerView;

    closed spec fn view(&self) -> LedgerView {
        wallets_of(self.wallets@)
    }
}

impl Ledger {
    /// Each owner has one wallet, and each wallet lists each token once.
    pub closed spec fn wf(&self) -> bool {
        &&& owners_distinct(self.wallets@)
        &&& forall|i: int| 0 <= i < self.wallets.len() ==> (#[trigger] self.wallets[i]).wf()
    }

    /// A ledger without wallets.
    pub fn new() -> (ledger: Ledger)
        ensures
            ledger.wf(),
            ledger@ == Map::<Principal, WalletView>::empty(),
    {
        Ledger { wallets: Vec::new() }
    }

    /// The place of the wallet of `user`, if there is one.
    fn find_wallet(&self, user: &Principal) -> (r: Option<usize>)
        ensures
            match r {
                Some(i) => i < self.wallets.len() && self.wallets[i as int].owner == *user,
                None => forall|i: int|
                    0 <= i < self.wallets.len() ==> (#[trigger] self.wallets[i]).owner != *user,
            },
    {
        let mut i: usize = 0;
        while i < self.wallets.len()
            invariant
                i <= self.wallets.len(),
                forall|k: int| 0 <= k < i ==> (#[trigger] self.wallets[k]).owner != *user,
            decreases self.wallets.len() - i,
        {
            if principal_eq(&self.wallets[i].owner, user) {
                return Some(i);
            }
            i += 1;
        }
        None
    }

    /// The place of the wallet of `user`, which is created at `now` if there
    /// is none.
    fn ensure_wallet(&mut self, user: Principal, now: u64) -> (i: usize)
        requires
            old(self).wf(),
        ensures
            final(self).wf(),
            i < final(self).wallets.len(),
            final(self).wallets[i as int].owner == user,
            final(self).wallets[i as int]@ == wallet_in(old(self)@, user, now),
            final(self)@ == old(self)@.insert(user, wallet_in(old(self)@, user, now)),
    {
        match self.find_wallet(&user) {
            Some(i) => {
                proof {
                    lemma_wallets_present(self.wallets@, i as int);
                    assert(self@ =~= self@.insert(user, wallet_in(self@, user, now)));
                }
                i
            },
            None => {
                let wallet = WalletBalance { owner: user, balances: Vec::new(), last_updated: now };
                proof {
                    lemma_wallets_absent(self.wallets@, user);
                    lemma_wallets_push(self.wallets@, wallet);
                }
                self.wallets.push(wallet);
                self.wallets.len() - 1
            },
        }
    }
}

impl Ledger {
    /// The balance that wallet `i` lists for token `key`, zero if it lists
    /// none.
    fn entry_amount(&self, i: usize, key: &String) -> (r: Nat)
        requires
            self.wf(),
            i < self.wallets.len(),
        ensures
            nat_value(r) == amount_in(self.wallets[i as int]@, key@),
    {
        match find_entry(&self.wallets[i].balances, key) {
            Some(j) => {
                proof {
                    lemma_balances_present(self.wallets[i as int].balances@, j as int);
                }
                nat_clone(&self.wallets[i].balances[j].amount)
            },
            None => {
                proof {
                    lemma_balances_absent(self.wallets[i as int].balances@, key@);
                }
                nat_from_u128(0)
            },
        }
    }

    /// Sets the balance that wallet `i` lists for token `key`, and the time of
    /// the wallet's last change.
    fn set_balance(&mut self, i: usize, key: String, value: Nat, stamp: u64)
        requires
            old(self).wf(),
            i < old(self).wallets.len(),
        ensures
            final(self).wf(),
            final(self).wallets.len() == old(self).wallets.len(),
            final(self)@ == old(self)@.insert(
                old(self).wallets[i as int].owner,
                (WalletView {
                    owner: old(self).wallets[i as int].owner,
                    balances: old(self).wallets[i as int]@.balances.insert(key@, nat_value(value)),
                    last_updated: stamp,
                }),
            ),
    {
        let ghost before = self.wallets@;
        let ghost entries = before[i as int].balances@;
        match find_entry(&self.wallets[i].balances, &key) {
            Some(j) => {
                proof {
                    lemma_balances_update(
                        entries,
                        j as int,
                        TokenBalance { token: entries[j as int].token, amount: value },
                    );
                }
                self.wallets[i].balances[j].amount = value;
            },
            None => {
                let entry = TokenBalance { token: key, amount: value };
                proof {
                    lemma_balances_push(entries, entry);
                }
                self.wallets[i].balances.push(entry);
            },
        }
        self.wallets[i].last_updated = stamp;
        proof {
            lemma_wallets_update(before, i as int, self.wallets[i as int]);
            assert(self.wallets@ =~= before.update(i as int, self.wallets[i as int]));
            assert forall|k: int| 0 <= k < self.wallets.len() implies (#[trigger] self.wallets[k]).wf() by {
                if k != i {
                    assert(self.wallets[k] == before[k]);
                }
            }
        }
    }
}

/// The balance that `user` has of the token whose ledger key is `key`. The key
/// of a token is the lowercase form of its symbol.
pub fn balance_of(ledger: &Ledger, user: Principal, key: &String) -> (balance: Nat)
    requires
        ledger.wf(),
    ensures
        nat_value(balance) == balance_in(ledger@, user, key@),
{
    match ledger.find_wallet(&user) {
        Some(i) => {
            proof {
                lemma_wallets_present(ledger.wallets@, i as int);
            }
            ledger.entry_amount(i, key)
        },
        None => {
            proof {
                lemma_wallets_absent(ledger.wallets@, user);
            }
            nat_from_u128(0)
        },
    }
}

/// The balance that `user` has of `token`, whatever the case of the symbol.
/// Zero without a wallet or without an entry for the token.
pub fn get_balance(ledger: &Ledger, user: Principal, token: &str) -> (balance: Nat)
    requires
        ledger.wf(),
    ensures
        nat_value(balance) == balance_in(ledger@, user, lowercase(token@)),
{
    let key = to_lowercase(token);
    balance_of(ledger, user, &key)
}

/// Adds `amount` to the balance that `user` has of the token whose ledger key
/// is `key`, and returns the new balance.
pub fn credit(ledger: &mut Ledger, user: Principal, key: String, amount: &Nat, now: u64) -> (balance:
    Nat)
    requires
        old(ledger).wf(),
    ensures
        final(ledger).wf(),
        final(ledger)@ == credited(old(ledger)@, user, key@, nat_value(*amount), now),
        nat_value(balance) == balance_in(old(ledger)@, user, key@) + nat_value(*amount),
{
    let i = ledger.ensure_wallet(user, now);
    let current = ledger.entry_amount(i, &key);
    let total = nat_add(&current, amount);
    ledger.set_balance(i, key, nat_clone(&total), now);
    proof {
        assert(ledger@ =~= credited(old(ledger)@, user, key@, nat_value(*amount), now));
    }
    total
}

/// Deposits `amount` of `token` into the wallet of `user`, which is created if
/// there is none, and returns the new balance.
pub fn deposit(ledger: &mut Ledger, user: Principal, token: String, amount: Nat, now: u64) -> (balance:
    Nat)
    requires
        old(ledger).wf(),
    ensures
        final(ledger).wf(),
        final(ledger)@ == credited(old(ledger)@, user, lowercase(token@), nat_value(amount), now),
        nat_value(balance) == balance_in(old(ledger)@, user, lowercase(token@)) + nat_value(amount),
{
    let key = to_lowercase(token.as_str());
    credit(ledger, user, key, &amount, now)
}

/// Takes `amount` from the balance that `user` has of the token whose ledger
/// key is `key`, and returns the new balance. An amount above the balance is
/// refused, and then no balance changes.
pub fn debit(ledger: &mut Ledger, user: Principal, key: String, amount: &Nat, now: u64) -> (r: Result<
    Nat,
    TradeError,
>)
    requires
        old(ledger).wf(),
    ensures
        final(ledger).wf(),
        nat_value(*amount) > balance_in(old(ledger)@, user, key@) ==> r == Err::<Nat, TradeError>(
            TradeError::InsufficientBalance,
        ) && final(ledger)@ == refused(old(ledger)@, user, key@, now),
        nat_value(*amount) <= balance_in(old(ledger)@, user, key@) ==> r is Ok && nat_value(r->Ok_0)
            == balance_in(old(ledger)@, user, key@) - nat_value(*amount) && final(ledger)@ == debited(
            old(ledger)@,
            user,
            key@,
            nat_value(*amount),
            now,
        ),
{
    let i = ledger.ensure_wallet(user, now);
    let current = ledger.entry_amount(i, &key);
    if nat_lt(&current, amount) {
        let stamp = ledger.wallets[i].last_updated;
        ledger.set_balance(i, key, current, stamp);
        proof {
            assert(ledger@ =~= refused(old(ledger)@, user, key@, now));
        }
        Err(TradeError::InsufficientBalance)
    } else {
        let rest = nat_sub(&current, amount);
        ledger.set_balance(i, key, nat_clone(&rest), now);
        proof {
            assert(ledger@ =~= debited(old(ledger)@, user, key@, nat_value(*amount), now));
        }
        Ok(rest)
    }
}

/// Withdraws `amount` of `token` from the wallet of `user` and returns the new
/// balance. It fails with `InsufficientBalance` exactly when `amount` is above
/// the balance, and then no balance changes.
pub fn withdraw(ledger: &mut Ledger, user: Principal, token: String, amount: Nat, now: u64) -> (r:
    Result<Nat, TradeError>)
    requires
        old(ledger).wf(),
    ensures
        final(ledger).wf(),
        nat_value(amount) > balance_in(old(ledger)@, user, lowercase(token@)) ==> r == Err::<
            Nat,
            TradeError,
        >(TradeError::InsufficientBalance) && final(ledger)@ == refused(
            old(ledger)@,
            user,
            lowercase(token@),
            now,
        ),
        nat_value(amount) <= balance_in(old(ledger)@, user, lowercase(token@)) ==> r is Ok
            && nat_value(r->Ok_0) == balance_in(old(ledger)@, user, lowercase(token@)) - nat_value(
            amount,
        ) && final(ledger)@ == debited(old(ledger)@, user, lowercase(token@), nat_value(amount), now),
{
    let key = to_lowercase(token.as_str());
    debit(ledger, user, key, &amount, now)
}

/// A copy of a wallet: the same owner, balances and time.
fn clone_wallet(wallet: &WalletBalance) -> (copy: WalletBalance)
    ensures
        copy@ == wallet@,
        wallet.wf() ==> copy.wf(),
{
    let mut balances: Vec<TokenBalance> = Vec::new();
    let mut j: usize = 0;
    while j < wallet.balances.len()
        invariant
            j <= wallet.balances.len(),
            balances.len() == j,
            forall|k: int|
                0 <= k < j ==> (#[trigger] balances[k]).token@ == wallet.balances[k].token@
                    && nat_value(balances[k].amount) == nat_value(wallet.balances[k].amount),
        decreases wallet.balances.len() - j,
    {
        balances.push(
            TokenBalance {
                token: wallet.balances[j].token.clone(),
                amount: nat_clone(&wallet.balances[j].amount),
            },
        );
        j += 1;
    }
    proof {
        lemma_balances_same(balances@, wallet.balances@);
        lemma_balances_same(wallet.balances@, balances@);
    }
    WalletBalance { owner: wallet.owner, balances, last_updated: wallet.last_updated }
}

/// Gives `user` a wallet without balances, created at `now`, in place of any
/// wallet that `user` had, and returns a copy of it.
pub fn init_wallet(ledger: &mut Ledger, user: Principal, now: u64) -> (wallet: WalletBalance)
    requires
        old(ledger).wf(),
    ensures
        final(ledger).wf(),
        final(ledger)@ == old(ledger)@.insert(user, empty_wallet(user, now)),
        wallet@ == empty_wallet(user, now),
        wallet.wf(),
{
    let i = ledger.ensure_wallet(user, now);
    let ghost before = ledger.wallets@;
    ledger.wallets[i].balances = Vec::new();
    ledger.wallets[i].last_updated = now;
    proof {
        lemma_wallets_update(before, i as int, ledger.wallets[i as int]);
        assert(ledger.wallets@ =~= before.update(i as int, ledger.wallets[i as int]));
        assert forall|k: int| 0 <= k < ledger.wallets.len() implies (#[trigger] ledger.wallets[k]).wf() by {
            if k != i {
                assert(ledger.wallets[k] == before[k]);
            }
        }
        assert(ledger@ =~= old(ledger)@.insert(user, empty_wallet(user, now)));
    }
    WalletBalance { owner: user, balances: Vec::new(), last_updated: now }
}

/// A copy of the wallet of `user`, which is created at `now` if there is none.
pub fn get_wallet(ledger: &mut Ledger, user: Principal, now: u64) -> (wallet: WalletBalance)
    requires
        old(ledger).wf(),
    ensures
        final(ledger).wf(),
        final(ledger)@ == old(ledger)@.insert(user, wallet_in(old(ledger)@, user, now)),
        wallet@ == wallet_in(old(ledger)@, user, now),
        wallet.wf(),
{
    let i = ledger.ensure_wallet(user, now);
    clone_wallet(&ledger.wallets[i])
}

/// After a deposit the balance of the token is the balance before plus the
/// amount, and every other balance is what it was.
pub proof fn lemma_deposit_adds_once(
    ledger: LedgerView,
    owner: Principal,
    key: Seq<char>,
    amount: nat,
    now: u64,
    other_owner: Principal,
    other_key: Seq<char>,
)
    ensures
        balance_in(credited(ledger, owner, key, amount, now), owner, key) == balance_in(
            ledger,
            owner,
            key,
        ) + amount,
        other_owner != owner || other_key != key ==> balance_in(
            credited(ledger, owner, key, amount, now),
            other_owner,
            other_key,
        ) == balance_in(ledger, other_owner, other_key),
{
}

/// After a withdrawal that the balance covers, the balance of the token is the
/// balance before less the amount, and every other balance is what it was.
pub proof fn lemma_withdrawal_subtracts_once(
    ledger: LedgerView,
    owner: Principal,
    key: Seq<char>,
    amount: nat,
    now: u64,
    other_owner: Principal,
    other_key: Seq<char>,
)
    requires
        amount <= balance_in(ledger, owner, key),
    ensures
        balance_in(debited(ledger, owner, key, amount, now), owner, key) == balance_in(
            ledger,
            owner,
            key,
        ) - amount,
        other_owner != owner || other_key != key ==> balance_in(
            debited(ledger, owner, key, amount, now),
            other_owner,
            other_key,
        ) == balance_in(ledger, other_owner, other_key),
{
}

/// A refused withdrawal changes no balance.
pub proof fn lemma_refusal_keeps_balances(
    ledger: LedgerView,
    owner: Principal,
    key: Seq<char>,
    now: u64,
    any_owner: Principal,
    any_key: Seq<char>,
)
    ensures
        balance_in(refused(ledger, owner, key, now), any_owner, any_key) == balance_in(
            ledger,
            any_owner,
            any_key,
        ),
{
}

/// The place of the entry for token `key`, if there is one.
fn find_entry(entries: &Vec<TokenBalance>, key: &String) -> (r: Option<usize>)
    ensures
        match r {
            Some(j) => j < entries.len() && entries[j as int].token@ == key@,
            None => forall|j: int| 0 <= j < entries.len() ==> (#[trigger] entries[j]).token@ != key@,
        },
{
    let mut j: usize = 0;
    while j < entries.len()
        invariant
            j <= entries.len(),
            forall|k: int| 0 <= k < j ==> (#[trigger] entries[k]).token@ != key@,
        decreases entries.len() - j,
    {
        if entries[j].token == *key {
            return Some(j);
        }
        j += 1;
    }
    None
}

/// A token that no entry names has no balance listed.
pub proof fn lemma_balances_absent(entries: Seq<TokenBalance>, key: Seq<char>)
    requires
        forall|i: int| 0 <= i < entries.len() ==> (#[trigger] entries[i]).token@ != key,
    ensures
        !balances_of(entries).dom().contains(key),
    decreases entries.len(),
{
    if entries.len() > 0 {
        let front = entries.drop_last();
        assert forall|i: int| 0 <= i < front.len() implies (#[trigger] front[i]).token@ != key by {
            assert(front[i] == entries[i]);
        }
        lemma_balances_absent(front, key);
        assert(entries.last() == entries[entries.len() - 1]);
    }
}

/// Among distinct tokens, the balance listed for the token of an entry is the
/// amount of that entry.
pub proof fn lemma_balances_present(entries: Seq<TokenBalance>, i: int)
    requires
        tokens_distinct(entries),
        0 <= i < entries.len(),
    ensures
        balances_of(entries).dom().contains(entries[i].token@),
        balances_of(entries)[entries[i].token@] == nat_value(entries[i].amount),
    decreases entries.len(),
{
    let front = entries.drop_last();
    if i < entries.len() - 1 {
        assert(front[i] == entries[i]);
        assert(tokens_distinct(front)) by {
            assert forall|a: int, b: int| 0 <= a < b < front.len() implies #[trigger] front[a].token@
                != #[trigger] front[b].token@ by {
                assert(front[a] == entries[a] && front[b] == entries[b]);
            }
        }
        lemma_balances_present(front, i);
        assert(entries[i].token@ != entries[entries.len() - 1].token@);
    }
}

/// Replacing the amount of one entry sets the balance of its token and leaves
/// the others as they were.
pub proof fn lemma_balances_update(entries: Seq<TokenBalance>, i: int, entry: TokenBalance)
    requires
        tokens_distinct(entries),
        0 <= i < entries.len(),
        entry.token@ == entries[i].token@,
    ensures
        tokens_distinct(entries.update(i, entry)),
        balances_of(entries.update(i, entry)) == balances_of(entries).insert(
            entry.token@,
            nat_value(entry.amount),
        ),
    decreases entries.len(),
{
    let after = entries.update(i, entry);
    assert(tokens_distinct(after)) by {
        assert forall|a: int, b: int| 0 <= a < b < after.len() implies #[trigger] after[a].token@
            != #[trigger] after[b].token@ by {
            assert(after[a].token@ == entries[a].token@ && after[b].token@ == entries[b].token@);
        }
    }
    let front = entries.drop_last();
    if i == entries.len() - 1 {
        assert(after.drop_last() =~= front);
        assert(balances_of(after) =~= balances_of(entries).insert(
            entry.token@,
            nat_value(entry.amount),
        ));
    } else {
        assert(tokens_distinct(front)) by {
            assert forall|a: int, b: int| 0 <= a < b < front.len() implies #[trigger] front[a].token@
                != #[trigger] front[b].token@ by {
                assert(front[a] == entries[a] && front[b] == entries[b]);
            }
        }
        assert(front[i] == entries[i]);
        lemma_balances_update(front, i, entry);
        assert(after.drop_last() =~= front.update(i, entry));
        assert(after.last() == entries.last());
        assert(entries[i].token@ != entries[entries.len() - 1].token@);
        assert(balances_of(after) =~= balances_of(entries).insert(
            entry.token@,
            nat_value(entry.amount),
        ));
    }
}

/// A new entry for a token that none names lists that balance and keeps the
/// tokens distinct.
pub proof fn lemma_balances_push(entries: Seq<TokenBalance>, entry: TokenBalance)
    requires
        tokens_distinct(entries),
        forall|i: int| 0 <= i < entries.len() ==> (#[trigger] entries[i]).token@ != entry.token@,
    ensures
        tokens_distinct(entries.push(entry)),
        balances_of(entries.push(entry)) == balances_of(entries).insert(
            entry.token@,
            nat_value(entry.amount),
        ),
{
    let after = entries.push(entry);
    assert(after.drop_last() =~= entries);
    assert forall|a: int, b: int| 0 <= a < b < after.len() implies #[trigger] after[a].token@
        != #[trigger] after[b].token@ by {
        if b < entries.len() {
            assert(after[a] == entries[a] && after[b] == entries[b]);
        } else {
            assert(after[a] == entries[a]);
        }
    }
}

/// Two lists with the same tokens and the same amounts, entry by entry, stand
/// for the same balances.
pub proof fn lemma_balances_same(a: Seq<TokenBalance>, b: Seq<TokenBalance>)
    requires
        a.len() == b.len(),
        forall|i: int|
            0 <= i < a.len() ==> (#[trigger] a[i]).token@ == b[i].token@ && nat_value(a[i].amount)
                == nat_value(b[i].amount),
    ensures
        balances_of(a) == balances_of(b),
        tokens_distinct(a) ==> tokens_distinct(b),
    decreases a.len(),
{
    if a.len() > 0 {
        let fa = a.drop_last();
        let fb = b.drop_last();
        assert forall|i: int| 0 <= i < fa.len() implies (#[trigger] fa[i]).token@ == fb[i].token@
            && nat_value(fa[i].amount) == nat_value(fb[i].amount) by {
            assert(fa[i] == a[i] && fb[i] == b[i]);
        }
        lemma_balances_same(fa, fb);
        assert(a.last() == a[a.len() - 1]);
    }
    if tokens_distinct(a) {
        assert forall|i: int, j: int| 0 <= i < j < b.len() implies #[trigger] b[i].token@
            != #[trigger] b[j].token@ by {
            assert(a[i].token@ == b[i].token@ && a[j].token@ == b[j].token@);
        }
    }
}

/// An owner that no wallet names has no wallet in the ledger.
pub proof fn lemma_wallets_absent(wallets: Seq<WalletBalance>, owner: Principal)
    requires
        forall|i: int| 0 <= i < wallets.len() ==> (#[trigger] wallets[i]).owner != owner,
    ensures
        !wallets_of(wallets).dom().contains(owner),
    decreases wallets.len(),
{
    if wallets.len() > 0 {
        let front = wallets.drop_last();
        assert forall|i: int| 0 <= i < front.len() implies (#[trigger] front[i]).owner != owner by {
            assert(front[i] == wallets[i]);
        }
        lemma_wallets_absent(front, owner);
        assert(wallets.last() == wallets[wallets.len() - 1]);
    }
}

/// Among distinct owners, the ledger holds each wallet under its owner.
pub proof fn lemma_wallets_present(wallets: Seq<WalletBalance>, i: int)
    requires
        owners_distinct(wallets),
        0 <= i < wallets.len(),
    ensures
        wallets_of(wallets).dom().contains(wallets[i].owner),
        wallets_of(wallets)[wallets[i].owner] == wallets[i]@,
    decreases wallets.len(),
{
    let front = wallets.drop_last();
    if i < wallets.len() - 1 {
        assert(front[i] == wallets[i]);
        assert(owners_distinct(front)) by {
            assert forall|a: int, b: int| 0 <= a < b < front.len() implies #[trigger] front[a].owner
                != #[trigger] front[b].owner by {
                assert(front[a] == wallets[a] && front[b] == wallets[b]);
            }
        }
        lemma_wallets_present(front, i);
        assert(wallets[i].owner != wallets[wallets.len() - 1].owner);
    }
}

/// Replacing the wallet of one owner sets that owner's wallet in the ledger
/// and leaves the others as they were.
pub proof fn lemma_wallets_update(wallets: Seq<WalletBalance>, i: int, wallet: WalletBalance)
    requires
        owners_distinct(wallets),
        0 <= i < wallets.len(),
        wallet.owner == wallets[i].owner,
    ensures
        owners_distinct(wallets.update(i, wallet)),
        wallets_of(wallets.update(i, wallet)) == wallets_of(wallets).insert(wallet.owner, wallet@),
    decreases wallets.len(),
{
    let after = wallets.update(i, wallet);
    assert(owners_distinct(after)) by {
        assert forall|a: int, b: int| 0 <= a < b < after.len() implies #[trigger] after[a].owner
            != #[trigger] after[b].owner by {
            assert(after[a].owner == wallets[a].owner && after[b].owner == wallets[b].owner);
        }
    }
    let front = wallets.drop_last();
    if i == wallets.len() - 1 {
        assert(after.drop_last() =~= front);
        assert(wallets_of(after) =~= wallets_of(wallets).insert(wallet.owner, wallet@));
    } else {
        assert(owners_distinct(front)) by {
            assert forall|a: int, b: int| 0 <= a < b < front.len() implies #[trigger] front[a].owner
                != #[trigger] front[b].owner by {
                assert(front[a] == wallets[a] && front[b] == wallets[b]);
            }
        }
        assert(front[i] == wallets[i]);
        lemma_wallets_update(front, i, wallet);
        assert(after.drop_last() =~= front.update(i, wallet));
        assert(after.last() == wallets.last());
        assert(wallets[i].owner != wallets[wallets.len() - 1].owner);
        assert(wallets_of(after) =~= wallets_of(wallets).insert(wallet.owner, wallet@));
    }
}

/// A new wallet for an owner that has none is held under that owner and keeps
/// the owners distinct.
pub proof fn lemma_wallets_push(wallets: Seq<WalletBalance>, wallet: WalletBalance)
    requires
        owners_distinct(wallets),
        forall|i: int| 0 <= i < wallets.len() ==> (#[trigger] wallets[i]).owner != wallet.owner,
    ensures
        owners_distinct(wallets.push(wallet)),
        wallets_of(wallets.push(wallet)) == wallets_of(wallets).insert(wallet.owner, wallet@),
{
    let after = wallets.push(wallet);
    assert(after.drop_last() =~= wallets);
    assert forall|a: int, b: int| 0 <= a < b < after.len() implies #[trigger] after[a].owner
        != #[trigger] after[b].owner by {
        if b < wallets.len() {
            assert(after[a] == wallets[a] && after[b] == wallets[b]);
        } else {
            assert(after[a] == wallets[a]);
        }
    }
}

} // verus!
