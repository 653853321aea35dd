//! What the settings sync stores for a settings document: one notification-setting row
//! per pair of a signed-in account and a watched account.

use vstd::prelude::*;

use crate::models::{lemma_notification_type_for_kinds, notification_type_for, NotificationType};
use crate::user_settings::{AccountSettingView, PostType, UserSettings};
use crate::web_json::{NotificationSetting, NotificationSettingView};

verus! {

/// The row for user account `account` and the setting of watched account `following`.
pub open spec fn setting_row(account: Seq<char>, following: Seq<char>, setting: AccountSettingView) -> NotificationSettingView {
    NotificationSettingView {
        user_account_did: account,
        following_did: following,
        post_type: setting.post_types.map_values(|p: PostType| notification_type_for(p)),
        word_allow_list: None,
        word_block_list: None,
    }
}

/// The rows of one user account: one per watched account, in the order of the settings.
pub open spec fn rows_for_account(account: Seq<char>, settings: Seq<(Seq<char>, AccountSettingView)>) -> Seq<NotificationSettingView>
    decreases settings.len(),
{
    if settings.len() == 0 {
        Seq::empty()
    } else {
        rows_for_account(account, settings.drop_last()).push(
            setting_row(account, settings.last().0, settings.last().1),
        )
    }
}

/// The rows of all user accounts, account after account.
pub open spec fn setting_rows(accounts: Seq<Seq<char>>, settings: Seq<(Seq<char>, AccountSettingView)>) -> Seq<NotificationSettingView>
    decreases accounts.len(),
{
    if accounts.len() == 0 {
        Seq::empty()
    } else {
        setting_rows(accounts.drop_last(), settings) + rows_for_account(accounts.last(), settings)
    }
}

/// The views of a list of settings rows.
pub open spec fn rows_view(v: Seq<NotificationSetting>) -> Seq<NotificationSettingView> {
    v.map_values(|r: NotificationSetting| r@)
}

/// The notification types that a list of post types asks for.
fn notification_types(p: &Vec<PostType>) -> (r: Vec<NotificationType>)
    ensures
        r@ == p@.map_values(|t: PostType| notification_type_for(t)),
{
    let mut r: Vec<NotificationType> = Vec::new();
    let mut i: usize = 0;
    while i < p.len()
        invariant
            i <= p.len(),
            r@ == p@.subrange(0, i as int).map_values(|t: PostType| notification_type_for(t)),
        decreases p.len() - i,
    {
        r.push(NotificationType::from_post_type(p[i]));
        assert(r@ =~= p@.subrange(0, i + 1).map_values(|t: PostType| notification_type_for(t)));
        i = i + 1;
    }
    assert(p@.subrange(0, p.len() as int) == p@);
    r
}

/// The notification-setting rows of a settings document: for each of its user accounts,
/// one row per watched account, asking for the notification types of its post types,
/// without word lists.
pub fn notification_setting_rows(settings: &UserSettings) -> (rows: Vec<NotificationSetting>)
    ensures
        rows_view(rows@) == setting_rows(settings@.accounts, settings@.settings),
{
    let mut rows: Vec<NotificationSetting> = Vec::new();
    let mut a: usize = 0;
    while a < settings.accounts.len()
        invariant
            a <= settings.accounts.len(),
            rows_view(rows@) == setting_rows(settings@.accounts.subrange(0, a as int), settings@.settings),
        decreases settings.accounts.len() - a,
    {
        let account = &settings.accounts[a];
        let ghost acc = settings@.accounts[a as int];
        let ghost base = rows_view(rows@);
        let mut k: usize = 0;
        while k < settings.settings.len()
            invariant
                a < settings.accounts.len(),
                k <= settings.settings.len(),
                account@ == acc,
                acc == settings@.accounts[a as int],
                rows_view(rows@) == base + rows_for_account(acc, settings@.settings.subrange(0, k as int)),
            decreases settings.settings.len() - k,
        {
            let entry = &settings.settings[k];
            let ghost before = rows_view(rows@);
            let row = NotificationSetting {
                user_account_did: account.clone(),
                following_did: entry.0.clone(),
                post_type: notification_types(&entry.1.post_types),
                word_allow_list: None,
                word_block_list: None,
            };
            rows.push(row);
            let ghost pre = settings@.settings.subrange(0, k + 1);
            assert(pre.drop_last() == settings@.settings.subrange(0, k as int));
            assert(pre.last() == settings@.settings[k as int]);
            assert(rows_view(rows@) =~= before.push(setting_row(acc, pre.last().0, pre.last().1)));
            k = k + 1;
        }
        assert(settings@.settings.subrange(0, k as int) == settings@.settings);
        let ghost pre_a = settings@.accounts.subrange(0, a + 1);
        assert(pre_a.drop_last() == settings@.accounts.subrange(0, a as int));
        assert(pre_a.last() == acc);
        a = a + 1;
    }
    assert(settings@.accounts.subrange(0, a as int) == settings@.accounts);
    rows
}

/// The row of a user account and a watched account names both accounts, carries no
/// word lists, and asks, position by position, for the notification type of the same kind
/// as each post type of the setting.
pub proof fn lemma_setting_row_content(account: Seq<char>, following: Seq<char>, setting: AccountSettingView)
    ensures
        setting_row(account, following, setting).user_account_did == account,
        setting_row(account, following, setting).following_did == following,
        setting_row(account, following, setting).word_allow_list is None,
        setting_row(account, following, setting).word_block_list is None,
        setting_row(account, following, setting).post_type.len() == setting.post_types.len(),
        forall|i: int|
            #![trigger setting_row(account, following, setting).post_type[i]]
            0 <= i < setting.post_types.len() ==> {
                let t = setting_row(account, following, setting).post_type[i];
                let p = setting.post_types[i];
                &&& (t == NotificationType::Post) == (p == PostType::Post)
                &&& (t == NotificationType::Repost) == (p == PostType::Repost)
                &&& (t == NotificationType::Reply) == (p == PostType::Reply)
                &&& (t == NotificationType::ReplyToFriend) == (p == PostType::ReplyToFriend)
            },
{
    let row = setting_row(account, following, setting);
    assert forall|i: int| 0 <= i < setting.post_types.len() implies {
        let t = #[trigger] row.post_type[i];
        let p = setting.post_types[i];
        &&& (t == NotificationType::Post) == (p == PostType::Post)
        &&& (t == NotificationType::Repost) == (p == PostType::Repost)
        &&& (t == NotificationType::Reply) == (p == PostType::Reply)
        &&& (t == NotificationType::ReplyToFriend) == (p == PostType::ReplyToFriend)
    } by {
        lemma_notification_type_for_kinds(setting.post_types[i]);
    }
}

/// The rows of one user account: one per setting, in order.
proof fn lemma_rows_for_account_index(account: Seq<char>, settings: Seq<(Seq<char>, AccountSettingView)>)
    ensures
        rows_for_account(account, settings).len() == settings.len(),
        forall|j: int|
            0 <= j < settings.len() ==> #[trigger] rows_for_account(account, settings)[j] == setting_row(
                account,
                settings[j].0,
                settings[j].1,
            ),
    decreases settings.len(),
{
    if settings.len() > 0 {
        lemma_rows_for_account_index(account, settings.drop_last());
        assert forall|j: int| 0 <= j < settings.len() implies #[trigger] rows_for_account(account, settings)[j]
            == setting_row(account, settings[j].0, settings[j].1) by {
            if j < settings.len() - 1 {
                assert(settings.drop_last()[j] == settings[j]);
            }
        }
    }
}

/// A settings document stores one row for each pair of a user account and an account
/// setting, and no other: with `n` settings, the row at `i * n + j` is that of user account
/// `i` and setting `j`, and there are as many rows as pairs.
pub proof fn lemma_setting_rows_pairs(accounts: Seq<Seq<char>>, settings: Seq<(Seq<char>, AccountSettingView)>)
    ensures
        setting_rows(accounts, settings).len() == accounts.len() * settings.len(),
        forall|i: int, j: int|
            0 <= i < accounts.len() && 0 <= j < settings.len() ==> #[trigger] setting_rows(accounts, settings)[i
                * settings.len() + j] == setting_row(accounts[i], settings[j].0, settings[j].1),
    decreases accounts.len(),
{
    let n = settings.len() as int;
    if accounts.len() > 0 {
        let prev = accounts.drop_last();
        let m = prev.len() as int;
        lemma_setting_rows_pairs(prev, settings);
        lemma_rows_for_account_index(accounts.last(), settings);
        assert(m * n + n == (m + 1) * n) by (nonlinear_arith);
        assert forall|i: int, j: int| 0 <= i < accounts.len() && 0 <= j < n implies #[trigger] setting_rows(
            accounts,
            settings,
        )[i * n + j] == setting_row(accounts[i], settings[j].0, settings[j].1) by {
            if i < m {
                assert(i * n + j < m * n) by (nonlinear_arith)
                    requires
                        0 <= i < m,
                        0 <= j < n,
                ;
                assert(0 <= i * n) by (nonlinear_arith)
                    requires
                        0 <= i,
                        0 <= n,
                ;
                assert(prev[i] == accounts[i]);
            } else {
                assert(i == m);
            }
        }
    }
}

} // verus!
