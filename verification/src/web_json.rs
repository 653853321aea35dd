//! The settings bundle that the app sends to the web API, and the completion of its
//! account list before it is stored.

use vstd::prelude::*;

use crate::models::NotificationType;
use crate::order::strs_view;
use crate::text::str_eq;

verus! {

/// All settings of one device, as the app sends them.
#[derive(Clone, Debug)]
pub struct UserSettings {
    pub fcm_token: String,
    pub device_uuid: Option<String>,
    pub accounts: Vec<Account>,
    pub notification_settings: Vec<NotificationSetting>,
}

/// A Bluesky account signed in on the device.
#[derive(Clone, Debug)]
pub struct Account {
    pub account_did: String,
}

/// What the user account `user_account_did` wants to hear about the account
/// `following_did`.
#[derive(Clone, Debug)]
pub struct NotificationSetting {
    pub user_account_did: String,
    pub following_did: String,
    pub post_type: Vec<NotificationType>,
    pub word_allow_list: Option<Vec<String>>,
    pub word_block_list: Option<Vec<String>>,
}

/// The abstract value of a `NotificationSetting`.
pub struct NotificationSettingView {
    pub user_account_did: Seq<char>,
    pub following_did: Seq<char>,
    pub post_type: Seq<NotificationType>,
    pub word_allow_list: Option<Seq<Seq<char>>>,
    pub word_block_list: Option<Seq<Seq<char>>>,
}

/// The strings of an optional list.
pub open spec fn opt_strs_view(o: Option<Vec<String>>) -> Option<Seq<Seq<char>>> {
    match o {
        Some(v) => Some(strs_view(v@)),
        None => None,
    }
}

impl View for NotificationSetting {
    type V = NotificationSettingView;

    open spec fn view(&self) -> NotificationSettingView {
        NotificationSettingView {
            user_account_did: self.user_account_did@,
            following_did: self.following_did@,
            post_type: self.post_type@,
            word_allow_list: opt_strs_view(self.word_allow_list),
            word_block_list: opt_strs_view(self.word_block_list),
        }
    }
}

/// The DIDs of a list of accounts.
pub open spec fn account_dids(a: Seq<Account>) -> Seq<Seq<char>> {
    a.map_values(|x: Account| x.account_did@)
}

/// The user account DIDs of a list of settings.
pub open spec fn setting_account_dids(s: Seq<NotificationSetting>) -> Seq<Seq<char>> {
    s.map_values(|x: NotificationSetting| x.user_account_did@)
}

/// The account list after appending, in order, each account that a setting names and the
/// list does not hold yet.
pub open spec fn with_missing_accounts(accounts: Seq<Seq<char>>, named: Seq<Seq<char>>) -> Seq<Seq<char>>
    decreases named.len(),
{
    if named.len() == 0 {
        accounts
    } else {
        let prev = with_missing_accounts(accounts, named.drop_last());
        if prev.contains(named.last()) {
            prev
        } else {
            prev.push(named.last())
        }
    }
}

/// The completed account list starts with the given accounts and holds every account
/// that a setting names.
pub proof fn lemma_with_missing_accounts(accounts: Seq<Seq<char>>, named: Seq<Seq<char>>)
    ensures
        accounts.is_prefix_of(with_missing_accounts(accounts, named)),
        forall|i: int| 0 <= i < named.len() ==> with_missing_accounts(accounts, named).contains(#[trigger] named[i]),
        forall|d: Seq<char>| #[trigger] with_missing_accounts(accounts, named).contains(d) ==> accounts.contains(d) || named.contains(d),
    decreases named.len(),
{
    if named.len() > 0 {
        let prev_named = named.drop_last();
        lemma_with_missing_accounts(accounts, prev_named);
        let prev = with_missing_accounts(accounts, prev_named);
        let cur = with_missing_accounts(accounts, named);
        assert forall|i: int| 0 <= i < named.len() implies cur.contains(#[trigger] named[i]) by {
            if i < named.len() - 1 {
                assert(prev.contains(prev_named[i]));
                if !prev.contains(named.last()) {
                    let k = choose|k: int| 0 <= k < prev.len() && prev[k] == prev_named[i];
                    assert(cur[k] == prev[k]);
                }
            } else if !prev.contains(named.last()) {
                assert(cur[prev.len() as int] == named.last());
            }
        }
        assert forall|d: Seq<char>| #[trigger] cur.contains(d) implies accounts.contains(d) || named.contains(d) by {
            if prev.contains(d) {
                if prev_named.contains(d) {
                    let k = choose|k: int| 0 <= k < prev_named.len() && prev_named[k] == d;
                    assert(named[k] == d);
                }
            } else {
                assert(named[named.len() - 1] == d);
            }
        }
        if !prev.contains(named.last()) {
            assert(accounts.is_prefix_of(cur)) by {
                assert forall|i: int| 0 <= i < accounts.len() implies accounts[i] == cur[i] by {
                    assert(accounts[i] == prev[i]);
                }
            }
        }
    }
}

/// Whether some account of `accounts` has the DID `did`.
fn has_account(accounts: &Vec<Account>, did: &str) -> (r: bool)
    ensures
        r == account_dids(accounts@).contains(did@),
{
    let mut k: usize = 0;
    while k < accounts.len()
        invariant
            k <= accounts.len(),
            forall|k2: int| 0 <= k2 < k ==> #[trigger] accounts@[k2].account_did@ != did@,
        decreases accounts.len() - k,
    {
        if str_eq(accounts[k].account_did.as_str(), did) {
            assert(account_dids(accounts@)[k as int] == did@);
            return true;
        }
        k = k + 1;
    }
    proof {
        if account_dids(accounts@).contains(did@) {
            let k2 = choose|k2: int| 0 <= k2 < accounts@.len() && account_dids(accounts@)[k2] == did@;
            assert(accounts@[k2].account_did@ == did@);
        }
    }
    false
}

impl UserSettings {
    /// Adds to the accounts every user account that a notification setting names and the
    /// accounts do not hold yet, in the order of the settings.
    pub fn add_missing_accounts(&mut self)
        ensures
            account_dids(final(self).accounts@) == with_missing_accounts(
                account_dids(old(self).accounts@),
                setting_account_dids(old(self).notification_settings@),
            ),
            final(self).fcm_token == old(self).fcm_token,
            final(self).device_uuid == old(self).device_uuid,
            final(self).notification_settings@ == old(self).notification_settings@,
    {
        let ghost named = setting_account_dids(self.notification_settings@);
        let ghost start = account_dids(self.accounts@);
        let mut i: usize = 0;
        while i < self.notification_settings.len()
            invariant
                i <= self.notification_settings.len(),
                named == setting_account_dids(self.notification_settings@),
                self.fcm_token == old(self).fcm_token,
                self.device_uuid == old(self).device_uuid,
                self.notification_settings@ == old(self).notification_settings@,
                start == account_dids(old(self).accounts@),
                account_dids(self.accounts@) == with_missing_accounts(start, named.subrange(0, i as int)),
            decreases self.notification_settings.len() - i,
        {
            let did = self.notification_settings[i].user_account_did.clone();
            let ghost before = account_dids(self.accounts@);
            assert(named.subrange(0, i + 1).drop_last() == named.subrange(0, i as int));
            assert(named.subrange(0, i + 1).last() == did@);
            if !has_account(&self.accounts, did.as_str()) {
                self.accounts.push(Account { account_did: did });
                assert(account_dids(self.accounts@) =~= before.push(named[i as int]));
            }
            i = i + 1;
        }
        assert(named.subrange(0, i as int) == named);
    }

    /// The DIDs of the accounts, which are the accounts the store keeps for the device.
    pub fn account_did_list(&self) -> (r: Vec<String>)
        ensures
            strs_view(r@) == account_dids(self.accounts@),
    {
        let mut r: Vec<String> = Vec::new();
        let mut i: usize = 0;
        while i < self.accounts.len()
            invariant
                i <= self.accounts.len(),
                strs_view(r@) == account_dids(self.accounts@).subrange(0, i as int),
            decreases self.accounts.len() - i,
        {
            let ghost before = strs_view(r@);
            r.push(self.accounts[i].account_did.clone());
            assert(strs_view(r@) =~= before.push(self.accounts@[i as int].account_did@));
            assert(account_dids(self.accounts@).subrange(0, i + 1) =~= before.push(
                self.accounts@[i as int].account_did@,
            ));
            i = i + 1;
        }
        assert(account_dids(self.accounts@).subrange(0, i as int) == account_dids(self.accounts@));
        r
    }
}

} // verus!
