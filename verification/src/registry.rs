use vstd::prelude::*;

verus! {

use vstd::string::StrSliceExecFns;
use crate::errors::GovError;
use crate::ids::AccountId;

/// Most characters a company name may hold.
pub const MAX_NAME_CHARS: usize = 50;

/// Most characters a company symbol may hold.
pub const MAX_SYMBOL_CHARS: usize = 10;

/// A company record: identity, token references, and the count of its
/// currently existing shareholder records. The authority is immutable after
/// creation and one company exists per authority.
pub struct Company {
    pub authority: AccountId,
    pub name: String,
    pub symbol: String,
    pub total_supply: u128,
    pub token_mint: AccountId,
    pub treasury: AccountId,
    pub shareholder_count: u32,
}

/// The mathematical value of a `Company`.
pub struct CompanyView {
    pub authority: AccountId,
    pub name: Seq<char>,
    pub symbol: Seq<char>,
    pub total_supply: u128,
    pub token_mint: AccountId,
    pub treasury: AccountId,
    pub shareholder_count: u32,
}

impl View for Company {
    type V = CompanyView;

    open spec fn view(&self) -> CompanyView {
        CompanyView {
            authority: self.authority,
            name: self.name@,
            symbol: self.symbol@,
            total_supply: self.total_supply,
            token_mint: self.token_mint,
            treasury: self.treasury,
            shareholder_count: self.shareholder_count,
        }
    }
}

/// A shareholder record, one per (company, owner) pair. The owner is the
/// identity currently controlling the record's voting power; delegation
/// hands both the control and the power to the delegate in one transition.
#[derive(Clone, Copy, Debug, PartialEq, Eq, Structural)]
pub struct Shareholder {
    pub owner: AccountId,
    pub voting_power: u128,
    pub delegated_to: AccountId,
    pub is_whitelisted: bool,
    pub company: AccountId,
}

/// The views of a sequence of companies.
pub open spec fn company_views(s: Seq<Company>) -> Seq<CompanyView> {
    s.map_values(|c: Company| c@)
}

/// Some company carries the given authority.
pub open spec fn has_company(cs: Seq<CompanyView>, authority: AccountId) -> bool {
    exists|i: int| 0 <= i < cs.len() && (#[trigger] cs[i]).authority == authority
}

/// Some company carries the given authority together with the given
/// shareholder count.
pub open spec fn company_count_is(cs: Seq<CompanyView>, authority: AccountId, n: u32) -> bool {
    exists|i: int|
        0 <= i < cs.len() && (#[trigger] cs[i]).authority == authority
            && cs[i].shareholder_count == n
}

/// Some shareholder record carries the given (company, owner) key.
pub open spec fn has_shareholder(ss: Seq<Shareholder>, company: AccountId, owner: AccountId) -> bool {
    exists|i: int|
        0 <= i < ss.len() && (#[trigger] ss[i]).company == company && ss[i].owner == owner
}

/// How many shareholder records belong to the given company.
pub open spec fn count_for(ss: Seq<Shareholder>, company: AccountId) -> nat {
    ss.filter(|s: Shareholder| s.company == company).len()
}

/// Company fields a record can be created from.
pub open spec fn valid_company_fields(name: Seq<char>, symbol: Seq<char>) -> bool {
    name.len() <= MAX_NAME_CHARS && symbol.len() <= MAX_SYMBOL_CHARS
}

/// The company `c` with its shareholder count replaced.
pub open spec fn with_count(c: CompanyView, n: u32) -> CompanyView {
    CompanyView {
        authority: c.authority,
        name: c.name,
        symbol: c.symbol,
        total_supply: c.total_supply,
        token_mint: c.token_mint,
        treasury: c.treasury,
        shareholder_count: n,
    }
}

/// The explicit store that registry operations act on: company records and
/// shareholder records, independently addressable, with composite-key
/// duplicate prevention for shareholders.
pub struct Registry {
    pub companies: Vec<Company>,
    pub shareholders: Vec<Shareholder>,
}

/// The mathematical value of a `Registry`.
pub struct RegistryView {
    pub companies: Seq<CompanyView>,
    pub shareholders: Seq<Shareholder>,
}

impl View for Registry {
    type V = RegistryView;

    open spec fn view(&self) -> RegistryView {
        RegistryView { companies: company_views(self.companies@), shareholders: self.shareholders@ }
    }
}

impl RegistryView {
    /// Authorities are unique: one company per authority.
    pub open spec fn companies_unique(self) -> bool {
        forall|i: int, j: int|
            0 <= i < j < self.companies.len()
                ==> (#[trigger] self.companies[i]).authority
                != (#[trigger] self.companies[j]).authority
    }

    /// Composite keys are unique: one shareholder record per (company, owner).
    pub open spec fn shareholders_unique(self) -> bool {
        forall|i: int, j: int|
            0 <= i < j < self.shareholders.len()
                ==> !((#[trigger] self.shareholders[i]).company
                == (#[trigger] self.shareholders[j]).company && self.shareholders[i].owner
                == self.shareholders[j].owner)
    }

    /// Record keys identify records: lookups are unambiguous.
    pub open spec fn keys_unique(self) -> bool {
        self.companies_unique() && self.shareholders_unique()
    }

    /// Every company's name and symbol fit their length bounds.
    pub open spec fn companies_valid(self) -> bool {
        forall|i: int|
            0 <= i < self.companies.len() ==> valid_company_fields(
                (#[trigger] self.companies[i]).name,
                self.companies[i].symbol,
            )
    }

    /// Every shareholder's back-reference names an existing company.
    pub open spec fn shareholders_linked(self) -> bool {
        forall|i: int|
            0 <= i < self.shareholders.len() ==> has_company(
                self.companies,
                (#[trigger] self.shareholders[i]).company,
            )
    }

    /// Every company's shareholder count equals the number of its currently
    /// existing shareholder records.
    pub open spec fn counts_consistent(self) -> bool {
        forall|i: int|
            0 <= i < self.companies.len() ==> (#[trigger] self.companies[i]).shareholder_count
                == count_for(self.shareholders, self.companies[i].authority)
    }

    /// The registry invariant: every operation preserves it.
    pub open spec fn wf(self) -> bool {
        &&& self.keys_unique()
        &&& self.companies_valid()
        &&& self.shareholders_linked()
        &&& self.counts_consistent()
    }
}

impl Registry {
    /// An empty registry: no companies, no shareholders.
    pub fn new() -> (r: Registry)
        ensures
            r@.companies.len() == 0,
            r@.shareholders.len() == 0,
            r@.wf(),
    {
        Registry { companies: Vec::new(), shareholders: Vec::new() }
    }
}

/// Finds the first company carrying the given authority.
fn find_company(companies: &Vec<Company>, authority: AccountId) -> (r: Option<usize>)
    ensures
        match r {
            Some(k) => k < companies@.len() && company_views(companies@)[k as int].authority
                == authority,
            None => !has_company(company_views(companies@), authority),
        },
{
    let n = companies.len();
    let mut k: usize = 0;
    while k < n
        invariant
            k <= n,
            n == companies@.len(),
            forall|j: int|
                0 <= j < k ==> (#[trigger] company_views(companies@)[j]).authority != authority,
        decreases n - k,
    {
        if companies[k].authority == authority {
            return Some(k);
        }
        k += 1;
    }
    None
}

/// Finds the first shareholder record carrying the given (company, owner) key.
fn find_shareholder(ss: &Vec<Shareholder>, company: AccountId, owner: AccountId) -> (r: Option<
    usize,
>)
    ensures
        match r {
            Some(m) => m < ss@.len() && ss@[m as int].company == company && ss@[m as int].owner
                == owner,
            None => !has_shareholder(ss@, company, owner),
        },
{
    let n = ss.len();
    let mut m: usize = 0;
    while m < n
        invariant
            m <= n,
            n == ss@.len(),
            forall|j: int|
                0 <= j < m ==> !((#[trigger] ss@[j]).company == company && ss@[j].owner == owner),
        decreases n - m,
    {
        if ss[m].company == company && ss[m].owner == owner {
            return Some(m);
        }
        m += 1;
    }
    None
}

/// Appending a record raises exactly its own company's count.
proof fn lemma_count_push(ss: Seq<Shareholder>, x: Shareholder, c: AccountId)
    ensures
        count_for(ss.push(x), c) == count_for(ss, c) + if x.company == c {
            1int
        } else {
            0int
        },
{
    reveal(Seq::filter);
    assert(ss.push(x).drop_last() =~= ss);
    assert(ss.push(x).last() == x);
}

/// Removing a record lowers exactly its own company's count.
proof fn lemma_count_remove(ss: Seq<Shareholder>, i: int, c: AccountId)
    requires
        0 <= i < ss.len(),
    ensures
        count_for(ss.remove(i), c) == count_for(ss, c) - if ss[i].company == c {
            1int
        } else {
            0int
        },
    decreases ss.len(),
{
    reveal(Seq::filter);
    if i == ss.len() - 1 {
        assert(ss.remove(i) =~= ss.drop_last());
    } else {
        assert(ss.remove(i).drop_last() =~= ss.drop_last().remove(i));
        assert(ss.remove(i).last() == ss.last());
        lemma_count_remove(ss.drop_last(), i, c);
    }
}

/// Replacing a record within the same company leaves every count unchanged.
proof fn lemma_count_update_same(ss: Seq<Shareholder>, i: int, x: Shareholder, c: AccountId)
    requires
        0 <= i < ss.len(),
        x.company == ss[i].company,
    ensures
        count_for(ss.update(i, x), c) == count_for(ss, c),
    decreases ss.len(),
{
    reveal(Seq::filter);
    if i == ss.len() - 1 {
        assert(ss.update(i, x).drop_last() =~= ss.drop_last());
        assert(ss.update(i, x).last() == x);
    } else {
        assert(ss.update(i, x).drop_last() =~= ss.drop_last().update(i, x));
        assert(ss.update(i, x).last() == ss.last());
        lemma_count_update_same(ss.drop_last(), i, x, c);
    }
}

/// A company no record belongs to has count zero.
proof fn lemma_count_zero(ss: Seq<Shareholder>, c: AccountId)
    requires
        forall|i: int| 0 <= i < ss.len() ==> (#[trigger] ss[i]).company != c,
    ensures
        count_for(ss, c) == 0,
    decreases ss.len(),
{
    reveal(Seq::filter);
    if ss.len() > 0 {
        assert(forall|i: int|
            0 <= i < ss.drop_last().len() ==> (#[trigger] ss.drop_last()[i]).company != c);
        lemma_count_zero(ss.drop_last(), c);
    }
}

/// Creates a company for `authority` with no shareholders yet. Rejects an
/// over-long name or symbol, and a second company for the same authority; on
/// any error the registry is unchanged.
pub fn initialize_company(
    reg: &mut Registry,
    name: String,
    symbol: String,
    total_supply: u128,
    token_mint: AccountId,
    treasury: AccountId,
    authority: AccountId,
) -> (r: Result<(), GovError>)
    requires
        old(reg)@.keys_unique(),
    ensures
        final(reg)@.keys_unique(),
        old(reg)@.wf() ==> final(reg)@.wf(),
        r is Ok <==> valid_company_fields(name@, symbol@) && !has_company(
            old(reg)@.companies,
            authority,
        ),
        !valid_company_fields(name@, symbol@) ==> r == Err::<(), GovError>(
            GovError::ValidationError,
        ),
        valid_company_fields(name@, symbol@) && has_company(old(reg)@.companies, authority)
            ==> r == Err::<(), GovError>(GovError::AlreadyExists),
        r is Err ==> final(reg)@ == old(reg)@,
        r is Ok ==> final(reg)@.companies == old(reg)@.companies.push(
            CompanyView {
                authority,
                name: name@,
                symbol: symbol@,
                total_supply,
                token_mint,
                treasury,
                shareholder_count: 0,
            },
        ) && final(reg)@.shareholders == old(reg)@.shareholders,
{
    if name.as_str().unicode_len() > MAX_NAME_CHARS || symbol.as_str().unicode_len()
        > MAX_SYMBOL_CHARS {
        return Err(GovError::ValidationError);
    }
    if let Some(_k) = find_company(&reg.companies, authority) {
        return Err(GovError::AlreadyExists);
    }
    let ghost prev = reg@;
    let company = Company {
        authority,
        name,
        symbol,
        total_supply,
        token_mint,
        treasury,
        shareholder_count: 0,
    };
    reg.companies.push(company);
    proof {
        assert(reg@.companies =~= prev.companies.push(
            CompanyView {
                authority,
                name: name@,
                symbol: symbol@,
                total_supply,
                token_mint,
                treasury,
                shareholder_count: 0,
            },
        ));
        if prev.wf() {
            assert forall|i: int|
                0 <= i < prev.shareholders.len() implies (#[trigger] prev.shareholders[i]).company
                != authority by {
                assert(has_company(prev.companies, prev.shareholders[i].company));
            }
            lemma_count_zero(prev.shareholders, authority);
            assert forall|i: int| 0 <= i < reg@.shareholders.len() implies has_company(
                reg@.companies,
                (#[trigger] reg@.shareholders[i]).company,
            ) by {
                assert(has_company(prev.companies, prev.shareholders[i].company));
                let w = choose|w: int|
                    0 <= w < prev.companies.len() && (#[trigger] prev.companies[w]).authority
                        == prev.shareholders[i].company;
                assert(reg@.companies[w].authority == prev.shareholders[i].company);
            }
        }
    }
    Ok(())
}

/// Adds a shareholder record for (company, owner), raising the company's
/// count. Only the company authority may call; a duplicate key and a count at
/// the 32-bit maximum are rejected; on any error the registry is unchanged.
pub fn add_shareholder_by_company(
    reg: &mut Registry,
    caller: AccountId,
    company: AccountId,
    owner: AccountId,
    voting_power: u128,
    whitelisted: bool,
) -> (r: Result<(), GovError>)
    requires
        old(reg)@.keys_unique(),
    ensures
        final(reg)@.keys_unique(),
        old(reg)@.wf() ==> final(reg)@.wf(),
        r is Ok <==> has_company(old(reg)@.companies, company) && caller == company
            && !has_shareholder(old(reg)@.shareholders, company, owner) && !company_count_is(
            old(reg)@.companies,
            company,
            u32::MAX,
        ),
        !has_company(old(reg)@.companies, company) ==> r == Err::<(), GovError>(GovError::NotFound),
        has_company(old(reg)@.companies, company) && caller != company ==> r == Err::<
            (),
            GovError,
        >(GovError::Unauthorized),
        has_company(old(reg)@.companies, company) && caller == company && has_shareholder(
            old(reg)@.shareholders,
            company,
            owner,
        ) ==> r == Err::<(), GovError>(GovError::AlreadyExists),
        has_company(old(reg)@.companies, company) && caller == company && !has_shareholder(
            old(reg)@.shareholders,
            company,
            owner,
        ) && company_count_is(old(reg)@.companies, company, u32::MAX) ==> r == Err::<
            (),
            GovError,
        >(GovError::Overflow),
        r is Err ==> final(reg)@ == old(reg)@,
        r is Ok ==> final(reg)@.shareholders == old(reg)@.shareholders.push(
            Shareholder {
                owner,
                voting_power,
                delegated_to: owner,
                is_whitelisted: whitelisted,
                company,
            },
        ) && exists|k: int|
            {
                &&& 0 <= k < old(reg)@.companies.len()
                &&& (#[trigger] old(reg)@.companies[k]).authority == company
                &&& final(reg)@.companies == old(reg)@.companies.update(
                    k,
                    with_count(
                        old(reg)@.companies[k],
                        (old(reg)@.companies[k].shareholder_count + 1) as u32,
                    ),
                )
            },
{
    let k = match find_company(&reg.companies, company) {
        None => {
            return Err(GovError::NotFound);
        },
        Some(k) => k,
    };
    if caller != company {
        return Err(GovError::Unauthorized);
    }
    if let Some(_m) = find_shareholder(&reg.shareholders, company, owner) {
        return Err(GovError::AlreadyExists);
    }
    proof {
        assert forall|k2: int|
            0 <= k2 < old(reg)@.companies.len() && (#[trigger] old(reg)@.companies[k2]).authority
                == company implies k2 == k as int by {
            if k2 < k as int {
                assert(old(reg)@.companies[k2].authority != old(
                    reg,
                )@.companies[k as int].authority);
            }
            if k2 > k as int {
                assert(old(reg)@.companies[k as int].authority != old(reg)@.companies[k2].authority);
            }
        }
    }
    if reg.companies[k].shareholder_count == u32::MAX {
        proof {
            assert(company_count_is(old(reg)@.companies, company, u32::MAX));
        }
        return Err(GovError::Overflow);
    }
    let ghost prev = reg@;
    let comp = &mut reg.companies[k];
    comp.shareholder_count = comp.shareholder_count + 1;
    let record = Shareholder {
        owner,
        voting_power,
        delegated_to: owner,
        is_whitelisted: whitelisted,
        company,
    };
    reg.shareholders.push(record);
    proof {
        let kk = k as int;
        assert(reg@.companies =~= prev.companies.update(
            kk,
            with_count(prev.companies[kk], (prev.companies[kk].shareholder_count + 1) as u32),
        ));
        if prev.wf() {
            assert forall|i: int| 0 <= i < reg@.companies.len() implies (
            #[trigger] reg@.companies[i]).shareholder_count == count_for(
                reg@.shareholders,
                reg@.companies[i].authority,
            ) by {
                lemma_count_push(prev.shareholders, record, reg@.companies[i].authority);
            }
            assert forall|i: int| 0 <= i < reg@.shareholders.len() implies has_company(
                reg@.companies,
                (#[trigger] reg@.shareholders[i]).company,
            ) by {
                if i < prev.shareholders.len() {
                    assert(has_company(prev.companies, prev.shareholders[i].company));
                    let w = choose|w: int|
                        0 <= w < prev.companies.len() && (#[trigger] prev.companies[w]).authority
                            == prev.shareholders[i].company;
                    assert(reg@.companies[w].authority == prev.shareholders[i].company);
                } else {
                    assert(reg@.companies[kk].authority == company);
                }
            }
        }
    }
    Ok(())
}

/// Removes the shareholder record named by its (company, owner) key, lowering
/// the company's count. Only the company authority may call; the record's
/// back-reference must match the given company, and a count already at zero
/// is rejected; on any error the registry is unchanged.
pub fn remove_shareholder_by_company(
    reg: &mut Registry,
    caller: AccountId,
    company: AccountId,
    shareholder_company: AccountId,
    shareholder_owner: AccountId,
) -> (r: Result<(), GovError>)
    requires
        old(reg)@.keys_unique(),
    ensures
        final(reg)@.keys_unique(),
        old(reg)@.wf() ==> final(reg)@.wf(),
        r is Ok <==> has_company(old(reg)@.companies, company) && caller == company
            && has_shareholder(old(reg)@.shareholders, shareholder_company, shareholder_owner)
            && shareholder_company == company && !company_count_is(old(reg)@.companies, company, 0),
        !has_company(old(reg)@.companies, company) ==> r == Err::<(), GovError>(GovError::NotFound),
        has_company(old(reg)@.companies, company) && caller != company ==> r == Err::<
            (),
            GovError,
        >(GovError::Unauthorized),
        has_company(old(reg)@.companies, company) && caller == company && !has_shareholder(
            old(reg)@.shareholders,
            shareholder_company,
            shareholder_owner,
        ) ==> r == Err::<(), GovError>(GovError::NotFound),
        has_company(old(reg)@.companies, company) && caller == company && has_shareholder(
            old(reg)@.shareholders,
            shareholder_company,
            shareholder_owner,
        ) && shareholder_company != company ==> r == Err::<(), GovError>(GovError::Mismatch),
        has_company(old(reg)@.companies, company) && caller == company && has_shareholder(
            old(reg)@.shareholders,
            shareholder_company,
            shareholder_owner,
        ) && shareholder_company == company && company_count_is(old(reg)@.companies, company, 0)
            ==> r == Err::<(), GovError>(GovError::Underflow),
        r is Err ==> final(reg)@ == old(reg)@,
        r is Ok ==> exists|k: int, m: int|
            {
                &&& 0 <= k < old(reg)@.companies.len()
                &&& (#[trigger] old(reg)@.companies[k]).authority == company
                &&& 0 <= m < old(reg)@.shareholders.len()
                &&& (#[trigger] old(reg)@.shareholders[m]).company == shareholder_company
                &&& old(reg)@.shareholders[m].owner == shareholder_owner
                &&& final(reg)@.companies == old(reg)@.companies.update(
                    k,
                    with_count(
                        old(reg)@.companies[k],
                        (old(reg)@.companies[k].shareholder_count - 1) as u32,
                    ),
                )
                &&& final(reg)@.shareholders == old(reg)@.shareholders.remove(m)
            },
{
    let k = match find_company(&reg.companies, company) {
        None => {
            return Err(GovError::NotFound);
        },
        Some(k) => k,
    };
    if caller != company {
        return Err(GovError::Unauthorized);
    }
    let m = match find_shareholder(&reg.shareholders, shareholder_company, shareholder_owner) {
        None => {
            return Err(GovError::NotFound);
        },
        Some(m) => m,
    };
    if shareholder_company != company {
        return Err(GovError::Mismatch);
    }
    proof {
        assert forall|k2: int|
            0 <= k2 < old(reg)@.companies.len() && (#[trigger] old(reg)@.companies[k2]).authority
                == company implies k2 == k as int by {
            if k2 < k as int {
                assert(old(reg)@.companies[k2].authority != old(
                    reg,
                )@.companies[k as int].authority);
            }
            if k2 > k as int {
                assert(old(reg)@.companies[k as int].authority != old(reg)@.companies[k2].authority);
            }
        }
    }
    if reg.companies[k].shareholder_count == 0 {
        proof {
            assert(company_count_is(old(reg)@.companies, company, 0));
        }
        return Err(GovError::Underflow);
    }
    let ghost prev = reg@;
    let comp = &mut reg.companies[k];
    comp.shareholder_count = comp.shareholder_count - 1;
    reg.shareholders.remove(m);
    proof {
        let kk = k as int;
        let mm = m as int;
        assert(reg@.companies =~= prev.companies.update(
            kk,
            with_count(prev.companies[kk], (prev.companies[kk].shareholder_count - 1) as u32),
        ));
        assert(reg@.shareholders == prev.shareholders.remove(mm));
        assert forall|j: int| 0 <= j < reg@.shareholders.len() implies #[trigger] reg@.shareholders[j]
            == if j < mm {
            prev.shareholders[j]
        } else {
            prev.shareholders[j + 1]
        } by {
            assert(prev.shareholders.remove(mm)[j] == if j < mm {
                prev.shareholders[j]
            } else {
                prev.shareholders[j + 1]
            });
        }
        if prev.wf() {
            assert forall|i: int| 0 <= i < reg@.companies.len() implies (
            #[trigger] reg@.companies[i]).shareholder_count == count_for(
                reg@.shareholders,
                reg@.companies[i].authority,
            ) by {
                lemma_count_remove(prev.shareholders, mm, reg@.companies[i].authority);
            }
            assert forall|i: int| 0 <= i < reg@.shareholders.len() implies has_company(
                reg@.companies,
                (#[trigger] reg@.shareholders[i]).company,
            ) by {
                let pi: int = if i < mm {
                    i
                } else {
                    i + 1
                };
                assert(has_company(prev.companies, prev.shareholders[pi].company));
                let w = choose|w: int|
                    0 <= w < prev.companies.len() && (#[trigger] prev.companies[w]).authority
                        == prev.shareholders[pi].company;
                assert(reg@.companies[w].authority == prev.shareholders[pi].company);
            }
        }
    }
    Ok(())
}

/// Hands a shareholder record's control and power to the delegate in one
/// transition: the controlling identity and the delegate both become
/// `new_delegated_to` and the voting power is overwritten, so no window
/// exists where the prior owner retains control of unconsumed power. A
/// delegate who already keys a record of the same company is rejected, which
/// keeps one record per (company, owner); on any error the registry is
/// unchanged.
pub fn delegate_vote_rights(
    reg: &mut Registry,
    shareholder_company: AccountId,
    shareholder_owner: AccountId,
    new_delegated_to: AccountId,
    new_voting_power: u128,
    company: AccountId,
) -> (r: Result<(), GovError>)
    requires
        old(reg)@.keys_unique(),
    ensures
        final(reg)@.keys_unique(),
        old(reg)@.wf() ==> final(reg)@.wf(),
        r is Ok <==> has_shareholder(old(reg)@.shareholders, shareholder_company, shareholder_owner)
            && shareholder_company == company && (new_delegated_to == shareholder_owner
            || !has_shareholder(old(reg)@.shareholders, company, new_delegated_to)),
        !has_shareholder(old(reg)@.shareholders, shareholder_company, shareholder_owner) ==> r
            == Err::<(), GovError>(GovError::NotFound),
        has_shareholder(old(reg)@.shareholders, shareholder_company, shareholder_owner)
            && shareholder_company != company ==> r == Err::<(), GovError>(GovError::Mismatch),
        has_shareholder(old(reg)@.shareholders, shareholder_company, shareholder_owner)
            && shareholder_company == company && new_delegated_to != shareholder_owner
            && has_shareholder(old(reg)@.shareholders, company, new_delegated_to) ==> r == Err::<
            (),
            GovError,
        >(GovError::AlreadyExists),
        r is Err ==> final(reg)@ == old(reg)@,
        r is Ok ==> final(reg)@.companies == old(reg)@.companies && exists|m: int|
            {
                &&& 0 <= m < old(reg)@.shareholders.len()
                &&& (#[trigger] old(reg)@.shareholders[m]).company == shareholder_company
                &&& old(reg)@.shareholders[m].owner == shareholder_owner
                &&& final(reg)@.shareholders == old(reg)@.shareholders.update(
                    m,
                    Shareholder {
                        owner: new_delegated_to,
                        voting_power: new_voting_power,
                        delegated_to: new_delegated_to,
                        is_whitelisted: old(reg)@.shareholders[m].is_whitelisted,
                        company: old(reg)@.shareholders[m].company,
                    },
                )
            },
{
    let m = match find_shareholder(&reg.shareholders, shareholder_company, shareholder_owner) {
        None => {
            return Err(GovError::NotFound);
        },
        Some(m) => m,
    };
    if shareholder_company != company {
        return Err(GovError::Mismatch);
    }
    if new_delegated_to != shareholder_owner {
        if let Some(_t) = find_shareholder(&reg.shareholders, company, new_delegated_to) {
            return Err(GovError::AlreadyExists);
        }
    }
    let ghost prev = reg@;
    let sh = &mut reg.shareholders[m];
    sh.owner = new_delegated_to;
    sh.delegated_to = new_delegated_to;
    sh.voting_power = new_voting_power;
    proof {
        let mm = m as int;
        assert(reg@.shareholders == prev.shareholders.update(
            mm,
            Shareholder {
                owner: new_delegated_to,
                voting_power: new_voting_power,
                delegated_to: new_delegated_to,
                is_whitelisted: prev.shareholders[mm].is_whitelisted,
                company: prev.shareholders[mm].company,
            },
        ));
        if prev.wf() {
            assert forall|i: int| 0 <= i < reg@.companies.len() implies (
            #[trigger] reg@.companies[i]).shareholder_count == count_for(
                reg@.shareholders,
                reg@.companies[i].authority,
            ) by {
                lemma_count_update_same(
                    prev.shareholders,
                    mm,
                    reg@.shareholders[mm],
                    reg@.companies[i].authority,
                );
            }
        }
    }
    Ok(())
}

/// Overwrites a shareholder record's voting power unconditionally. Only the
/// record's current owner may call; on any error the registry is unchanged.
pub fn update_voting_power(
    reg: &mut Registry,
    caller: AccountId,
    shareholder_company: AccountId,
    shareholder_owner: AccountId,
    new_voting_power: u128,
) -> (r: Result<(), GovError>)
    requires
        old(reg)@.keys_unique(),
    ensures
        final(reg)@.keys_unique(),
        old(reg)@.wf() ==> final(reg)@.wf(),
        r is Ok <==> has_shareholder(old(reg)@.shareholders, shareholder_company, shareholder_owner)
            && caller == shareholder_owner,
        !has_shareholder(old(reg)@.shareholders, shareholder_company, shareholder_owner) ==> r
            == Err::<(), GovError>(GovError::NotFound),
        has_shareholder(old(reg)@.shareholders, shareholder_company, shareholder_owner) && caller
            != shareholder_owner ==> r == Err::<(), GovError>(GovError::Unauthorized),
        r is Err ==> final(reg)@ == old(reg)@,
        r is Ok ==> final(reg)@.companies == old(reg)@.companies && exists|m: int|
            {
                &&& 0 <= m < old(reg)@.shareholders.len()
                &&& (#[trigger] old(reg)@.shareholders[m]).company == shareholder_company
                &&& old(reg)@.shareholders[m].owner == shareholder_owner
                &&& final(reg)@.shareholders == old(reg)@.shareholders.update(
                    m,
                    Shareholder {
                        owner: old(reg)@.shareholders[m].owner,
                        voting_power: new_voting_power,
                        delegated_to: old(reg)@.shareholders[m].delegated_to,
                        is_whitelisted: old(reg)@.shareholders[m].is_whitelisted,
                        company: old(reg)@.shareholders[m].company,
                    },
                )
            },
{
    let m = match find_shareholder(&reg.shareholders, shareholder_company, shareholder_owner) {
        None => {
            return Err(GovError::NotFound);
        },
        Some(m) => m,
    };
    if caller != shareholder_owner {
        return Err(GovError::Unauthorized);
    }
    let ghost prev = reg@;
    let sh = &mut reg.shareholders[m];
    sh.voting_power = new_voting_power;
    proof {
        let mm = m as int;
        assert(reg@.shareholders == prev.shareholders.update(
            mm,
            Shareholder {
                owner: prev.shareholders[mm].owner,
                voting_power: new_voting_power,
                delegated_to: prev.shareholders[mm].delegated_to,
                is_whitelisted: prev.shareholders[mm].is_whitelisted,
                company: prev.shareholders[mm].company,
            },
        ));
        if prev.wf() {
            assert forall|i: int| 0 <= i < reg@.companies.len() implies (
            #[trigger] reg@.companies[i]).shareholder_count == count_for(
                reg@.shareholders,
                reg@.companies[i].authority,
            ) by {
                lemma_count_update_same(
                    prev.shareholders,
                    mm,
                    reg@.shareholders[mm],
                    reg@.companies[i].authority,
                );
            }
        }
    }
    Ok(())
}

} // verus!
