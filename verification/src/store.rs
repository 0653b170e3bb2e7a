//! The account store: the accounts of the world state, by identifier.

use crate::account::{Account, AccountType};
use vstd::prelude::*;

verus! {

/// Whether the identifier at position `i` is `id`.
pub open spec fn filed_at(ids: Seq<String>, i: int, id: Seq<char>) -> bool {
    0 <= i < ids.len() && ids[i]@ == id
}

/// No identifier occurs twice.
pub open spec fn distinct_ids(ids: Seq<String>) -> bool {
    forall|i: int, j: int| #![trigger ids[i], ids[j]]
        0 <= i < ids.len() && 0 <= j < ids.len() && i != j ==> ids[i]@ != ids[j]@
}

/// The identifiers that occur in `ids`.
pub open spec fn listed(ids: Seq<String>) -> Set<Seq<char>> {
    Set::new(|id: Seq<char>| exists|i: int| filed_at(ids, i, id))
}

/// The mapping that identifiers and accounts, paired by position, stand for.
pub open spec fn paired_map(ids: Seq<String>, accounts: Seq<Account>) -> Map<Seq<char>, Account> {
    Map::new(
        |id: Seq<char>| exists|i: int| filed_at(ids, i, id),
        |id: Seq<char>| accounts[choose|i: int| filed_at(ids, i, id)],
    )
}

/// A mapping from account identifier to account, kept in order of creation.
///
/// The account of `ids[i]` is `accounts[i]`. No identifier occurs twice, and
/// the two vectors are of one length: this is the type's invariant. The store
/// is no hash map, since nothing is known to the verifier of how a map keyed
/// by texts behaves; a lookup goes through the identifiers in order.
#[derive(Debug)]
pub struct AccountStore {
    ids: Vec<String>,
    accounts: Vec<Account>,
}

impl View for AccountStore {
    type V = Map<Seq<char>, Account>;

    closed spec fn view(&self) -> Map<Seq<char>, Account> {
        paired_map(self.ids@, self.accounts@)
    }
}

impl Clone for AccountStore {
    /// A copy that holds the same accounts under the same identifiers.
    fn clone(&self) -> (copy: AccountStore)
        ensures
            copy@ == self@,
    {
        proof {
            use_type_invariant(self);
        }
        let mut ids: Vec<String> = Vec::new();
        let mut accounts: Vec<Account> = Vec::new();
        let mut i: usize = 0;
        while i < self.ids.len()
            invariant
                i <= self.ids.len(),
                self.ids.len() == self.accounts.len(),
                ids@ == self.ids@.take(i as int),
                accounts@ == self.accounts@.take(i as int),
            decreases self.ids.len() - i,
        {
            ids.push(self.ids[i].clone());
            accounts.push(self.accounts[i]);
            i = i + 1;
            assert(ids@ =~= self.ids@.take(i as int));
            assert(accounts@ =~= self.accounts@.take(i as int));
        }
        assert(ids@ =~= self.ids@);
        assert(accounts@ =~= self.accounts@);
        AccountStore { ids, accounts }
    }
}

impl AccountStore {
    #[verifier::type_invariant]
    spec fn well_formed(self) -> bool {
        self.ids.len() == self.accounts.len() && distinct_ids(self.ids@)
    }

    /// The store without accounts.
    pub fn new() -> (store: AccountStore)
        ensures
            store@ == Map::<Seq<char>, Account>::empty(),
    {
        let store = AccountStore { ids: Vec::new(), accounts: Vec::new() };
        assert(store@ =~= Map::<Seq<char>, Account>::empty());
        store
    }

    /// The identifiers under which accounts are filed, each once, in order of
    /// creation.
    pub fn ids(&self) -> (ids: Vec<String>)
        ensures
            distinct_ids(ids@),
            listed(ids@) == self@.dom(),
    {
        proof {
            use_type_invariant(self);
        }
        let mut ids: Vec<String> = Vec::new();
        let mut i: usize = 0;
        while i < self.ids.len()
            invariant
                i <= self.ids.len(),
                ids@ == self.ids@.take(i as int),
            decreases self.ids.len() - i,
        {
            ids.push(self.ids[i].clone());
            i = i + 1;
            assert(ids@ =~= self.ids@.take(i as int));
        }
        assert(ids@ =~= self.ids@);
        assert(listed(ids@) =~= self@.dom());
        ids
    }

    /// The position of `id` among the identifiers, if it is filed.
    fn position(&self, id: &String) -> (found: Option<usize>)
        ensures
            match found {
                Some(i) => filed_at(self.ids@, i as int, id@),
                None => !self@.contains_key(id@),
            },
    {
        let mut i: usize = 0;
        while i < self.ids.len()
            invariant
                i <= self.ids.len(),
                forall|j: int| 0 <= j < i ==> !filed_at(self.ids@, j, id@),
            decreases self.ids.len() - i,
        {
            if self.ids[i] == *id {
                return Some(i);
            }
            i = i + 1;
        }
        None
    }

    /// The account filed under `id`, if there is one.
    pub fn get(&self, id: &String) -> (found: Option<&Account>)
        ensures
            match found {
                Some(account) => self@.contains_key(id@) && *account == self@[id@],
                None => !self@.contains_key(id@),
            },
    {
        proof {
            use_type_invariant(self);
        }
        match self.position(id) {
            Some(i) => {
                proof {
                    lemma_filed_value(self.ids@, self.accounts@, i as int, id@);
                }
                Some(&self.accounts[i])
            },
            None => None,
        }
    }

    /// Exclusive access to the account filed under `id`, if there is one.
    /// What is written through it is the only change to the store.
    pub fn get_mut(&mut self, id: &String) -> (found: Option<&mut Account>)
        ensures
            match found {
                Some(account) => old(self)@.contains_key(id@) && *account == old(self)@[id@]
                    && final(self)@ == old(self)@.insert(id@, *final(account)),
                None => !old(self)@.contains_key(id@) && final(self)@ == old(self)@,
            },
    {
        proof {
            use_type_invariant(&*self);
        }
        match self.position(id) {
            Some(i) => {
                proof {
                    lemma_filed_value(self.ids@, self.accounts@, i as int, id@);
                    assert forall|account: Account| #[trigger]
                        paired_map(self.ids@, self.accounts@.update(i as int, account))
                            == self@.insert(id@, account) by {
                        lemma_filed_update(self.ids@, self.accounts@, i as int, id@, account);
                    }
                }
                Some(&mut self.accounts[i])
            },
            None => None,
        }
    }

    /// Files a new account of the given kind, with no tokens, under `id`,
    /// unless an account is filed there already.
    pub fn create(&mut self, id: String, account_type: AccountType) -> (created: bool)
        ensures
            created == !old(self)@.contains_key(id@),
            created ==> final(self)@ == old(self)@.insert(id@, Account::empty(account_type)),
            !created ==> final(self)@ == old(self)@,
    {
        proof {
            use_type_invariant(&*self);
        }
        match self.position(&id) {
            Some(_) => false,
            None => {
                proof {
                    lemma_filed_push(self.ids@, self.accounts@, id, Account::empty(account_type));
                }
                // The two vectors grow together: the store is taken apart and
                // put together again, so that it is whole whenever it is seen.
                let mut taken = AccountStore::new();
                std::mem::swap(self, &mut taken);
                let AccountStore { mut ids, mut accounts } = taken;
                ids.push(id);
                accounts.push(Account::new(account_type));
                *self = AccountStore { ids, accounts };
                true
            },
        }
    }
}

/// With distinct identifiers, the position of `id` gives its account.
proof fn lemma_filed_value(ids: Seq<String>, accounts: Seq<Account>, i: int, id: Seq<char>)
    requires
        distinct_ids(ids),
        filed_at(ids, i, id),
    ensures
        paired_map(ids, accounts).contains_key(id),
        paired_map(ids, accounts)[id] == accounts[i],
{
    let j = choose|j: int| filed_at(ids, j, id);
    assert(filed_at(ids, j, id));
    if i != j {
        assert(ids[i]@ != ids[j]@);
    }
}

/// Replacing the account at the position of `id` is an update of the mapping
/// at `id`.
proof fn lemma_filed_update(
    ids: Seq<String>,
    accounts: Seq<Account>,
    i: int,
    id: Seq<char>,
    account: Account,
)
    requires
        distinct_ids(ids),
        ids.len() == accounts.len(),
        filed_at(ids, i, id),
    ensures
        paired_map(ids, accounts.update(i, account)) == paired_map(ids, accounts).insert(
            id,
            account,
        ),
{
    let before = paired_map(ids, accounts);
    let after = paired_map(ids, accounts.update(i, account));
    assert forall|k: Seq<char>| after.contains_key(k) implies #[trigger] after[k]
        == before.insert(id, account)[k] by {
        let j = choose|j: int| filed_at(ids, j, k);
        assert(filed_at(ids, j, k));
        if k == id {
            if i != j {
                assert(ids[i]@ != ids[j]@);
            }
        }
    }
    assert(after =~= before.insert(id, account));
}

/// Filing an account under an identifier that is not filed yet is an insertion
/// into the mapping, and keeps the identifiers distinct.
proof fn lemma_filed_push(ids: Seq<String>, accounts: Seq<Account>, id: String, account: Account)
    requires
        distinct_ids(ids),
        ids.len() == accounts.len(),
        !paired_map(ids, accounts).contains_key(id@),
    ensures
        distinct_ids(ids.push(id)),
        paired_map(ids.push(id), accounts.push(account)) == paired_map(ids, accounts).insert(
            id@,
            account,
        ),
{
    let before = paired_map(ids, accounts);
    let after = paired_map(ids.push(id), accounts.push(account));
    let n = ids.len() as int;
    assert forall|i: int| 0 <= i < n implies ids[i]@ != id@ by {
        if ids[i]@ == id@ {
            assert(filed_at(ids, i, id@));
        }
    }
    assert(filed_at(ids.push(id), n, id@));
    assert forall|k: Seq<char>| #[trigger] after.contains_key(k) <==> before.insert(
        id@,
        account,
    ).contains_key(k) by {
        if after.contains_key(k) {
            let j = choose|j: int| filed_at(ids.push(id), j, k);
            if j < n {
                assert(filed_at(ids, j, k));
            }
        }
        if before.contains_key(k) {
            let j = choose|j: int| filed_at(ids, j, k);
            assert(filed_at(ids.push(id), j, k));
        }
    }
    assert forall|k: Seq<char>| after.contains_key(k) implies #[trigger] after[k] == before.insert(
        id@,
        account,
    )[k] by {
        let j = choose|j: int| filed_at(ids.push(id), j, k);
        assert(filed_at(ids.push(id), j, k));
        if k == id@ {
            assert(j == n);
        } else {
            assert(j < n);
            assert(filed_at(ids, j, k));
            let j0 = choose|j0: int| filed_at(ids, j0, k);
            assert(filed_at(ids, j0, k));
            if j0 != j {
                assert(ids[j0]@ != ids[j]@);
            }
        }
    }
    assert(after =~= before.insert(id@, account));
}

} // verus!
