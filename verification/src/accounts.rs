//! Account data: the owned-blueprint cache of the dossier service and the
//! recognized RSI accounts.

use vstd::prelude::*;

use crate::merge::{join_path, path_join};
use crate::profile::ProfileInfo;
use crate::state::opt_text;
use crate::text::{ascii_lower, str_eq, to_ascii_lowercase};
use crate::state::StrSet;

verus! {

/// The owned-blueprint set — the durable, cacheable projection catalogs
/// are decorated with.
pub struct OwnedBlueprints {
    /// Owned blueprint record GUIDs, in order.
    pub blueprint_ids: StrSet,
    /// When this set was fetched, Unix seconds. `0` = never.
    pub fetched_at: i64,
}

/// Account-data reads and their on-disk cache location.
pub struct DossierService {
    cache_root: String,
}

impl DossierService {
    /// `cache_root` is where the cache files live.
    pub fn new(cache_root: &str) -> (r: DossierService)
        ensures
            r.cache_root_path() == cache_root@,
    {
        DossierService { cache_root: cache_root.to_owned() }
    }

    /// The cache directory.
    pub closed spec fn cache_root_path(&self) -> Seq<char> {
        self.cache_root@
    }

    /// The owned-blueprint cache file: `blueprints.json` in the cache root.
    pub fn blueprints_path(&self) -> (r: String)
        ensures
            r@ == path_join(self.cache_root_path(), "blueprints.json"@),
    {
        join_path(self.cache_root.as_str(), "blueprints.json")
    }

    /// The last-fetched owned-blueprint set, given what the cache file
    /// holds (an empty set with `fetched_at == 0` when it is missing or
    /// unreadable): `None` when nothing has ever been fetched.
    pub fn cached_blueprints(&self, stored: OwnedBlueprints) -> (r: Option<OwnedBlueprints>)
        ensures
            stored.fetched_at == 0 ==> r is None,
            stored.fetched_at != 0 ==> r == Some(stored),
    {
        if stored.fetched_at != 0 {
            Some(stored)
        } else {
            None
        }
    }
}

} // verus!

verus! {

// ── RSI accounts ────────────────────────────────────────────────────────────

/// A recognized RSI account, keyed by a local id. `citizen_record` and
/// `enlisted` are the immutable anchors from the public profile — `None`
/// until verified.
#[derive(Debug)]
pub struct RsiAccount {
    pub id: String,
    /// Current handle (mutable — display and scrape key, never identity).
    pub handle: String,
    /// UEE Citizen Record number.
    pub citizen_record: Option<i64>,
    /// Enlisted date, ISO `YYYY-MM-DD`.
    pub enlisted: Option<String>,
    pub primary_org_sid: Option<String>,
    /// Unix milliseconds of the last successful profile verification.
    pub last_verified_ms: Option<u64>,
}

fn copy_opt(o: &Option<String>) -> (r: Option<String>)
    ensures
        r == *o,
{
    match o {
        Some(s) => Some(s.clone()),
        None => None,
    }
}

impl RsiAccount {
    /// A copy of this account.
    pub fn copy(&self) -> (r: RsiAccount)
        ensures
            r == *self,
    {
        RsiAccount {
            id: self.id.clone(),
            handle: self.handle.clone(),
            citizen_record: self.citizen_record,
            enlisted: copy_opt(&self.enlisted),
            primary_org_sid: copy_opt(&self.primary_org_sid),
            last_verified_ms: self.last_verified_ms,
        }
    }
}

/// `a` and `b` are equal ignoring ASCII case (`str::eq_ignore_ascii_case`).
pub open spec fn ascii_ci_eq(a: Seq<char>, b: Seq<char>) -> bool {
    a.map_values(|c: char| ascii_lower(c)) == b.map_values(|c: char| ascii_lower(c))
}

/// `k` is the first account whose handle matches `handle` ignoring ASCII
/// case.
pub open spec fn first_match(accounts: Seq<RsiAccount>, handle: Seq<char>, k: int) -> bool {
    &&& 0 <= k < accounts.len()
    &&& ascii_ci_eq(accounts[k].handle@, handle)
    &&& forall|j: int| 0 <= j < k ==> !ascii_ci_eq(#[trigger] accounts[j].handle@, handle)
}

/// Some account's handle matches `handle` ignoring ASCII case.
pub open spec fn has_match(accounts: Seq<RsiAccount>, handle: Seq<char>) -> bool {
    exists|j: int| 0 <= j < accounts.len() && ascii_ci_eq(#[trigger] accounts[j].handle@, handle)
}

/// The first account whose handle matches `handle`, ignoring ASCII case.
pub fn find_account(accounts: &Vec<RsiAccount>, handle: &str) -> (r: Option<usize>)
    ensures
        match r {
            Some(k) => first_match(accounts@, handle@, k as int),
            None => !has_match(accounts@, handle@),
        },
{
    let wanted = to_ascii_lowercase(handle);
    let mut i: usize = 0;
    while i < accounts.len()
        invariant
            i <= accounts@.len(),
            wanted@ == handle@.map_values(|c: char| ascii_lower(c)),
            forall|j: int| 0 <= j < i ==> !ascii_ci_eq(#[trigger] accounts@[j].handle@, handle@),
        decreases accounts@.len() - i,
    {
        let lower = to_ascii_lowercase(accounts[i].handle.as_str());
        if str_eq(lower.as_str(), wanted.as_str()) {
            return Some(i);
        }
        i = i + 1;
    }
    None
}

/// A fresh, unverified account.
pub open spec fn unverified(id: Seq<char>, handle: Seq<char>, a: RsiAccount) -> bool {
    &&& a.id@ == id
    &&& a.handle@ == handle
    &&& a.citizen_record is None
    &&& a.enlisted is None
    &&& a.primary_org_sid is None
    &&& a.last_verified_ms is None
}

/// The launcher's signed-in handle as an account: the known account whose
/// handle matches ignoring ASCII case, or — on first sight — a new
/// unverified account under `new_id`, appended. The flag tells whether it
/// was created.
pub fn recognize_account(accounts: &mut Vec<RsiAccount>, handle: &str, new_id: String) -> (r: (RsiAccount, bool))
    ensures
        has_match(old(accounts)@, handle@) ==> {
            &&& !r.1
            &&& final(accounts)@ == old(accounts)@
            &&& exists|k: int| first_match(old(accounts)@, handle@, k) && r.0 == old(accounts)@[k]
        },
        !has_match(old(accounts)@, handle@) ==> {
            &&& r.1
            &&& unverified(new_id@, handle@, r.0)
            &&& final(accounts)@ == old(accounts)@.push(r.0)
        },
{
    match find_account(accounts, handle) {
        Some(k) => (accounts[k].copy(), false),
        None => {
            let account = RsiAccount {
                id: new_id,
                handle: handle.to_owned(),
                citizen_record: None,
                enlisted: None,
                primary_org_sid: None,
                last_verified_ms: None,
            };
            let copy = account.copy();
            accounts.push(account);
            (copy, true)
        },
    }
}

/// `a` carries what a verification at `now_ms` read off the profile: the
/// profile's handle casing, both anchors, the SID, the time.
pub open spec fn verified_with(a: RsiAccount, info: ProfileInfo, now_ms: u64) -> bool {
    &&& a.handle@ == info.handle@
    &&& a.citizen_record == Some(info.citizen_record)
    &&& opt_text(a.enlisted) == Some(info.enlisted@)
    &&& opt_text(a.primary_org_sid) == opt_text(info.primary_org_sid)
    &&& a.last_verified_ms == Some(now_ms)
}

/// Record a successful profile verification of `handle`: the matching
/// account (ignoring ASCII case) takes the profile's values and keeps its
/// id; with no match a new account under `new_id` is appended. Returns the
/// account as stored.
pub fn record_verification(
    accounts: &mut Vec<RsiAccount>,
    handle: &str,
    info: &ProfileInfo,
    now_ms: u64,
    new_id: String,
) -> (r: RsiAccount)
    ensures
        verified_with(r, *info, now_ms),
        has_match(old(accounts)@, handle@) ==> exists|k: int|
            {
                &&& first_match(old(accounts)@, handle@, k)
                &&& r.id == old(accounts)@[k].id
                &&& final(accounts)@ == old(accounts)@.update(k, r)
            },
        !has_match(old(accounts)@, handle@) ==> {
            &&& r.id@ == new_id@
            &&& final(accounts)@ == old(accounts)@.push(r)
        },
{
    let id = match find_account(accounts, handle) {
        Some(k) => {
            let updated = RsiAccount {
                id: accounts[k].id.clone(),
                handle: info.handle.clone(),
                citizen_record: Some(info.citizen_record),
                enlisted: Some(info.enlisted.clone()),
                primary_org_sid: copy_opt(&info.primary_org_sid),
                last_verified_ms: Some(now_ms),
            };
            let copy = updated.copy();
            accounts.set(k, updated);
            return copy;
        },
        None => new_id,
    };
    let account = RsiAccount {
        id,
        handle: info.handle.clone(),
        citizen_record: Some(info.citizen_record),
        enlisted: Some(info.enlisted.clone()),
        primary_org_sid: copy_opt(&info.primary_org_sid),
        last_verified_ms: Some(now_ms),
    };
    let copy = account.copy();
    accounts.push(account);
    copy
}

} // verus!
