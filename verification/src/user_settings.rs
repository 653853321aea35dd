//! The notification settings of app users, as the settings store holds them,
//! and the index from watched Bluesky accounts to the devices that watch them.

use vstd::prelude::*;

use crate::order::{
    first_key, keys_distinct, lemma_sort_by_order_independent, pairs_view, self_key, sort_by,
    sort_pairs_by_first, sort_strings, strs_view,
};
use crate::text::{contains_str, str_eq};
use vstd::std_specs::cmp::{PartialEqSpec, PartialEqSpecImpl};

verus! {

/// The kinds of Bluesky activity a user can be notified of.
#[derive(Clone, Copy, Debug, PartialEq, Eq, Hash, Structural)]
pub enum PostType {
    Post,
    Repost,
    Reply,
    ReplyToFriend,
}

/// The name of a post type as its `Debug` form spells it.
pub open spec fn post_type_name(p: PostType) -> Seq<char> {
    match p {
        PostType::Post => seq!['P', 'o', 's', 't'],
        PostType::Repost => seq!['R', 'e', 'p', 'o', 's', 't'],
        PostType::Reply => seq!['R', 'e', 'p', 'l', 'y'],
        PostType::ReplyToFriend => seq![
            'R', 'e', 'p', 'l', 'y', 'T', 'o', 'F', 'r', 'i', 'e', 'n', 'd',
        ],
    }
}

impl PostType {
    /// The `Debug` name of the post type.
    pub fn debug_name(&self) -> (r: String)
        ensures
            r@ == post_type_name(*self),
    {
        let r = match self {
            PostType::Post => String::from_str("Post"),
            PostType::Repost => String::from_str("Repost"),
            PostType::Reply => String::from_str("Reply"),
            PostType::ReplyToFriend => String::from_str("ReplyToFriend"),
        };
        proof {
            reveal_strlit("Post");
            reveal_strlit("Repost");
            reveal_strlit("Reply");
            reveal_strlit("ReplyToFriend");
        }
        r
    }
}

/// The notification choices for one watched account: its DID and the kinds of
/// activity to notify of (a set: no kind twice).
#[derive(Clone, Debug)]
pub struct AccountSetting {
    pub did: String,
    pub post_types: Vec<PostType>,
}

/// The abstract value of an `AccountSetting`.
pub struct AccountSettingView {
    pub did: Seq<char>,
    pub post_types: Seq<PostType>,
}

impl View for AccountSetting {
    type V = AccountSettingView;

    open spec fn view(&self) -> AccountSettingView {
        AccountSettingView { did: self.did@, post_types: self.post_types@ }
    }
}

impl AccountSetting {
    /// The post types form a set: no post type twice.
    pub open spec fn wf(&self) -> bool {
        self.post_types@.no_duplicates()
    }
}

/// The settings document of one device: its user accounts (a set), its messaging token,
/// and the settings per watched account (a map keyed by the watched account's DID).
#[derive(Clone, Debug)]
pub struct UserSettings {
    pub doc_id: Option<String>,
    pub accounts: Vec<String>,
    pub fcm_token: String,
    pub settings: Vec<(String, AccountSetting)>,
}

/// The abstract value of a `UserSettings`.
pub struct UserSettingsView {
    pub doc_id: Option<Seq<char>>,
    pub accounts: Seq<Seq<char>>,
    pub fcm_token: Seq<char>,
    pub settings: Seq<(Seq<char>, AccountSettingView)>,
}

/// The characters of an optional string.
pub open spec fn opt_str_view(o: Option<String>) -> Option<Seq<char>> {
    match o {
        Some(s) => Some(s@),
        None => None,
    }
}

impl View for UserSettings {
    type V = UserSettingsView;

    open spec fn view(&self) -> UserSettingsView {
        UserSettingsView {
            doc_id: opt_str_view(self.doc_id),
            accounts: strs_view(self.accounts@),
            fcm_token: self.fcm_token@,
            settings: self.settings@.map_values(|e: (String, AccountSetting)| (e.0@, e.1@)),
        }
    }
}

impl UserSettings {
    /// The accounts form a set and the settings a map: no user account twice, no watched
    /// DID twice among the keys of the settings, and each account setting well formed.
    pub open spec fn wf(&self) -> bool {
        &&& strs_view(self.accounts@).no_duplicates()
        &&& forall|i: int, j: int|
            0 <= i < self.settings.len() && 0 <= j < self.settings.len() && i != j
                ==> (#[trigger] self.settings@[i]).0@ != (#[trigger] self.settings@[j]).0@
        &&& forall|i: int| 0 <= i < self.settings.len() ==> (#[trigger] self.settings@[i]).1.wf()
    }
}

/// The characters of all the pieces, one after the other.
pub open spec fn concat_all(s: Seq<Seq<char>>) -> Seq<char>
    decreases s.len(),
{
    if s.len() == 0 {
        Seq::empty()
    } else {
        concat_all(s.drop_last()) + s.last()
    }
}

/// The names of the post types, sorted and joined.
pub open spec fn post_types_text(p: Seq<PostType>) -> Seq<char> {
    concat_all(sort_by(p.map_values(|t: PostType| post_type_name(t)), |s: Seq<char>| self_key(s)))
}

/// The sort key and text of one account setting: its DID, and its DID followed by its
/// post types.
pub open spec fn setting_entry(a: AccountSettingView) -> (Seq<char>, Seq<char>) {
    (a.did, a.did + post_types_text(a.post_types))
}

/// The canonical text of a settings document: the token, then each account setting in
/// order of DID, then the user accounts in sorted order.
pub open spec fn stringified_view(u: UserSettingsView) -> Seq<char> {
    let entries = u.settings.map_values(|e: (Seq<char>, AccountSettingView)| setting_entry(e.1));
    let sorted = sort_by(entries, |p: (Seq<char>, Seq<char>)| first_key(p));
    u.fcm_token + concat_all(sorted.map_values(|p: (Seq<char>, Seq<char>)| p.1)) + concat_all(
        sort_by(u.accounts, |s: Seq<char>| self_key(s)),
    )
}

/// Appends the strings of `v` to `out`, in order.
fn append_all(out: &mut String, v: &Vec<String>)
    ensures
        final(out)@ == old(out)@ + concat_all(strs_view(v@)),
{
    let mut i: usize = 0;
    while i < v.len()
        invariant
            i <= v.len(),
            out@ == old(out)@ + concat_all(strs_view(v@).subrange(0, i as int)),
        decreases v.len() - i,
    {
        let ghost pre = strs_view(v@).subrange(0, i + 1);
        assert(pre.drop_last() == strs_view(v@).subrange(0, i as int));
        out.append(v[i].as_str());
        i = i + 1;
    }
    assert(strs_view(v@).subrange(0, v.len() as int) == strs_view(v@));
}

/// The post type names, sorted and joined.
fn post_types_string(p: &Vec<PostType>) -> (r: String)
    ensures
        r@ == post_types_text(p@),
{
    let mut names: Vec<String> = Vec::new();
    let mut i: usize = 0;
    while i < p.len()
        invariant
            i <= p.len(),
            strs_view(names@) == p@.subrange(0, i as int).map_values(|t: PostType| post_type_name(t)),
        decreases p.len() - i,
    {
        let ghost before = strs_view(names@);
        let name = p[i].debug_name();
        names.push(name);
        assert(strs_view(names@) =~= before.push(post_type_name(p@[i as int])));
        assert(p@.subrange(0, i + 1).map_values(|t: PostType| post_type_name(t)) =~= before.push(
            post_type_name(p@[i as int]),
        ));
        i = i + 1;
    }
    assert(p@.subrange(0, p.len() as int) == p@);
    let sorted = sort_strings(&names);
    let mut r = String::new();
    append_all(&mut r, &sorted);
    assert(r@ =~= post_types_text(p@));
    r
}

impl UserSettings {
    /// The canonical text of these settings, which does not depend on the order in which
    /// the accounts and account settings are held.
    pub fn stringified(&self) -> (r: String)
        ensures
            r@ == stringified_view(self@),
    {
        let mut entries: Vec<(String, String)> = Vec::new();
        let mut i: usize = 0;
        while i < self.settings.len()
            invariant
                i <= self.settings.len(),
                pairs_view(entries@) == self@.settings.subrange(0, i as int).map_values(
                    |e: (Seq<char>, AccountSettingView)| setting_entry(e.1),
                ),
            decreases self.settings.len() - i,
        {
            let a = &self.settings[i].1;
            let mut text = a.did.clone();
            let pts = post_types_string(&a.post_types);
            text.append(pts.as_str());
            let ghost before = pairs_view(entries@);
            let ghost entry = setting_entry(self@.settings[i as int].1);
            assert(self@.settings[i as int].1 == a@);
            entries.push((a.did.clone(), text));
            assert(pairs_view(entries@) =~= before.push(entry));
            assert(self@.settings.subrange(0, i + 1).map_values(
                |e: (Seq<char>, AccountSettingView)| setting_entry(e.1),
            ) =~= before.push(entry));
            i = i + 1;
        }
        assert(self@.settings.subrange(0, self.settings.len() as int) == self@.settings);
        let sorted = sort_pairs_by_first(&entries);
        let mut texts: Vec<String> = Vec::new();
        let mut k: usize = 0;
        while k < sorted.len()
            invariant
                k <= sorted.len(),
                strs_view(texts@) == pairs_view(sorted@).subrange(0, k as int).map_values(
                    |p: (Seq<char>, Seq<char>)| p.1,
                ),
            decreases sorted.len() - k,
        {
            let ghost before = strs_view(texts@);
            texts.push(sorted[k].1.clone());
            assert(strs_view(texts@) =~= before.push(sorted@[k as int].1@));
            assert(pairs_view(sorted@).subrange(0, k + 1).map_values(|p: (Seq<char>, Seq<char>)| p.1)
                =~= before.push(sorted@[k as int].1@));
            k = k + 1;
        }
        assert(pairs_view(sorted@).subrange(0, sorted.len() as int) == pairs_view(sorted@));
        let accounts = sort_strings(&self.accounts);
        let mut r = self.fcm_token.clone();
        append_all(&mut r, &texts);
        append_all(&mut r, &accounts);
        r
    }
}

/// Two settings documents are equal when their canonical texts are.
impl PartialEq for UserSettings {
    fn eq(&self, other: &UserSettings) -> (r: bool) {
        let a = self.stringified();
        let b = other.stringified();
        a == b
    }
}

impl PartialEqSpecImpl for UserSettings {
    open spec fn obeys_eq_spec() -> bool {
        true
    }

    open spec fn eq_spec(&self, other: &UserSettings) -> bool {
        stringified_view(self@) == stringified_view(other@)
    }
}

/// The settings of all devices, keyed by messaging token.
pub type UserSettingsMap = Vec<(String, UserSettings)>;

/// All settings documents and, for each watched account, the tokens of the devices that
/// watch it.
pub struct AllUserSettings {
    /// The settings per device token (no token twice).
    pub settings: UserSettingsMap,
    /// The tokens per watched account DID (no DID twice, no token twice under one DID).
    pub fcm_tokens_by_watched: Vec<(String, Vec<String>)>,
}

/// The settings of all devices form a map: no token twice, and each document well formed.
pub open spec fn settings_map_wf(settings: Seq<(String, UserSettings)>) -> bool {
    &&& forall|i: int, j: int|
        0 <= i < settings.len() && 0 <= j < settings.len() && i != j ==> (#[trigger] settings[i]).0@
            != (#[trigger] settings[j]).0@
    &&& forall|i: int| 0 <= i < settings.len() ==> (#[trigger] settings[i]).1.wf()
}

/// The settings of device `token` hold a setting for the account `did`.
pub open spec fn watches(settings: Seq<(String, UserSettings)>, token: Seq<char>, did: Seq<char>) -> bool {
    exists|i: int, j: int|
        #![trigger settings[i].1.settings@[j]]
        0 <= i < settings.len() && 0 <= j < settings[i].1.settings.len() && settings[i].0@ == token
            && settings[i].1.settings@[j].0@ == did
}

/// The index lists `token` under `did`.
pub open spec fn indexed(idx: Seq<(String, Vec<String>)>, did: Seq<char>, token: Seq<char>) -> bool {
    exists|k: int, m: int|
        #![trigger idx[k].1@[m]]
        0 <= k < idx.len() && 0 <= m < idx[k].1.len() && idx[k].0@ == did && idx[k].1@[m]@ == token
}

/// No DID twice in the index, and under each DID at least one token and no token twice.
pub open spec fn index_wf(idx: Seq<(String, Vec<String>)>) -> bool {
    &&& forall|k1: int, k2: int|
        #![trigger idx[k1], idx[k2]]
        0 <= k1 < idx.len() && 0 <= k2 < idx.len() && k1 != k2 ==> idx[k1].0@ != idx[k2].0@
    &&& forall|k: int|
        #![trigger idx[k]]
        0 <= k < idx.len() ==> {
            &&& idx[k].1.len() > 0
            &&& forall|m1: int, m2: int|
                #![trigger idx[k].1@[m1], idx[k].1@[m2]]
                0 <= m1 < idx[k].1.len() && 0 <= m2 < idx[k].1.len() && m1 != m2
                    ==> idx[k].1@[m1]@ != idx[k].1@[m2]@
        }
}

/// Records that device `token` watches `did`.
fn add_watch(idx: &mut Vec<(String, Vec<String>)>, did: &String, token: &String)
    requires
        index_wf(old(idx)@),
    ensures
        index_wf(final(idx)@),
        forall|d: Seq<char>, t: Seq<char>|
            #[trigger] indexed(final(idx)@, d, t) <==> (indexed(old(idx)@, d, t) || (d == did@ && t == token@)),
{
    let mut k: usize = 0;
    while k < idx.len() && !str_eq(idx[k].0.as_str(), did.as_str())
        invariant
            k <= idx.len(),
            forall|k2: int| 0 <= k2 < k ==> (#[trigger] idx@[k2]).0@ != did@,
        decreases idx.len() - k,
    {
        k = k + 1;
    }
    let ghost old_idx = idx@;
    if k < idx.len() {
        let mut list = idx[k].1.clone();
        assert(list@ == old_idx[k as int].1@);
        let ghost old_list = list@;
        let present = contains_str(&list, token.as_str());
        if !present {
            list.push(token.clone());
        }
        let ghost new_list = list@;
        let key = did.clone();
        idx.set(k, (key, list));
        proof {
            let ki = k as int;
            assert(idx@.len() == old_idx.len());
            assert(idx@[ki].1@ == new_list);
            assert(old_idx[ki].0@ == did@);
            assert forall|k2: int| 0 <= k2 < idx@.len() && k2 != ki implies #[trigger] idx@[k2] == old_idx[k2] by {}
            assert forall|m: int| 0 <= m < old_list.len() implies #[trigger] new_list[m] == old_list[m] by {}
            // well-formedness
            assert forall|k1: int, k2: int|
                #![trigger idx@[k1], idx@[k2]]
                0 <= k1 < idx@.len() && 0 <= k2 < idx@.len() && k1 != k2 implies idx@[k1].0@ != idx@[k2].0@ by {
                assert(old_idx[k1].0@ != old_idx[k2].0@);
            }
            assert forall|k1: int| #![trigger idx@[k1]] 0 <= k1 < idx@.len() implies {
                &&& idx@[k1].1.len() > 0
                &&& forall|m1: int, m2: int|
                    #![trigger idx@[k1].1@[m1], idx@[k1].1@[m2]]
                    0 <= m1 < idx@[k1].1.len() && 0 <= m2 < idx@[k1].1.len() && m1 != m2
                        ==> idx@[k1].1@[m1]@ != idx@[k1].1@[m2]@
            } by {
                if k1 == ki {
                    assert(old_idx[ki].1.len() > 0);
                    assert forall|m1: int, m2: int|
                        #![trigger idx@[k1].1@[m1], idx@[k1].1@[m2]]
                        0 <= m1 < idx@[k1].1.len() && 0 <= m2 < idx@[k1].1.len() && m1 != m2
                            implies idx@[k1].1@[m1]@ != idx@[k1].1@[m2]@ by {
                        if m1 < old_list.len() && m2 < old_list.len() {
                            assert(old_idx[ki].1@[m1] == old_list[m1]);
                            assert(old_idx[ki].1@[m2] == old_list[m2]);
                        } else if m1 < old_list.len() {
                            assert(new_list[m2]@ == token@);
                            assert(old_list[m1]@ != token@);
                        } else {
                            assert(new_list[m1]@ == token@);
                            assert(old_list[m2]@ != token@);
                        }
                    }
                }
            }
            // contents
            assert forall|d: Seq<char>, t: Seq<char>|
                #[trigger] indexed(idx@, d, t) <==> (indexed(old_idx, d, t) || (d == did@ && t == token@)) by {
                if indexed(idx@, d, t) {
                    let (k2, m) = choose|k2: int, m: int|
                        #![trigger idx@[k2].1@[m]]
                        0 <= k2 < idx@.len() && 0 <= m < idx@[k2].1.len() && idx@[k2].0@ == d && idx@[k2].1@[m]@ == t;
                    if k2 == ki && m >= old_list.len() {
                        assert(t == token@);
                    } else {
                        assert(old_idx[k2].1@[m] == idx@[k2].1@[m]);
                    }
                }
                if indexed(old_idx, d, t) {
                    let (k2, m) = choose|k2: int, m: int|
                        #![trigger old_idx[k2].1@[m]]
                        0 <= k2 < old_idx.len() && 0 <= m < old_idx[k2].1.len() && old_idx[k2].0@ == d && old_idx[k2].1@[m]@ == t;
                    assert(idx@[k2].1@[m] == old_idx[k2].1@[m]);
                }
                if d == did@ && t == token@ {
                    if present {
                        let m0 = choose|m0: int| 0 <= m0 < old_list.len() && #[trigger] old_list[m0]@ == token@;
                        assert(idx@[ki].1@[m0]@ == t);
                    } else {
                        assert(idx@[ki].1@[old_list.len() as int]@ == t);
                    }
                }
            }
        }
    } else {
        let mut list: Vec<String> = Vec::new();
        list.push(token.clone());
        let key = did.clone();
        idx.push((key, list));
        proof {
            let n = old_idx.len() as int;
            assert(idx@[n].1@[0]@ == token@);
            assert forall|k2: int| 0 <= k2 < n implies #[trigger] idx@[k2] == old_idx[k2] by {}
            assert forall|k1: int, k2: int|
                #![trigger idx@[k1], idx@[k2]]
                0 <= k1 < idx@.len() && 0 <= k2 < idx@.len() && k1 != k2 implies idx@[k1].0@ != idx@[k2].0@ by {
                if k1 < n && k2 < n {
                    assert(old_idx[k1].0@ != old_idx[k2].0@);
                } else if k1 < n {
                    assert(old_idx[k1].0@ != did@);
                } else {
                    assert(old_idx[k2].0@ != did@);
                }
            }
            assert forall|d: Seq<char>, t: Seq<char>|
                #[trigger] indexed(idx@, d, t) <==> (indexed(old_idx, d, t) || (d == did@ && t == token@)) by {
                if indexed(idx@, d, t) {
                    let (k2, m) = choose|k2: int, m: int|
                        #![trigger idx@[k2].1@[m]]
                        0 <= k2 < idx@.len() && 0 <= m < idx@[k2].1.len() && idx@[k2].0@ == d && idx@[k2].1@[m]@ == t;
                    if k2 < n {
                        assert(old_idx[k2].1@[m] == idx@[k2].1@[m]);
                    }
                }
                if indexed(old_idx, d, t) {
                    let (k2, m) = choose|k2: int, m: int|
                        #![trigger old_idx[k2].1@[m]]
                        0 <= k2 < old_idx.len() && 0 <= m < old_idx[k2].1.len() && old_idx[k2].0@ == d && old_idx[k2].1@[m]@ == t;
                    assert(idx@[k2].1@[m] == old_idx[k2].1@[m]);
                }
            }
        }
    }
}

/// Device `token` watches `did` through one of the settings that come, in iteration
/// order, before position `j` of the document at position `i`.
pub open spec fn watches_before(
    settings: Seq<(String, UserSettings)>,
    i: int,
    j: int,
    token: Seq<char>,
    did: Seq<char>,
) -> bool {
    exists|i2: int, j2: int|
        #![trigger settings[i2].1.settings@[j2]]
        0 <= i2 < settings.len() && 0 <= j2 < settings[i2].1.settings.len() && (i2 < i || (i2 == i
            && j2 < j)) && settings[i2].0@ == token && settings[i2].1.settings@[j2].0@ == did
}

/// The index of watched accounts for the given settings.
fn build_watch_index(settings: &UserSettingsMap) -> (idx: Vec<(String, Vec<String>)>)
    ensures
        index_wf(idx@),
        forall|d: Seq<char>, t: Seq<char>| #[trigger] indexed(idx@, d, t) <==> watches(settings@, t, d),
{
    let mut idx: Vec<(String, Vec<String>)> = Vec::new();
    let mut i: usize = 0;
    while i < settings.len()
        invariant
            i <= settings.len(),
            index_wf(idx@),
            forall|d: Seq<char>, t: Seq<char>|
                #[trigger] indexed(idx@, d, t) <==> watches_before(settings@, i as int, 0, t, d),
        decreases settings.len() - i,
    {
        let token = &settings[i].0;
        let user = &settings[i].1;
        let mut j: usize = 0;
        while j < user.settings.len()
            invariant
                i < settings.len(),
                j <= user.settings.len(),
                *token == settings@[i as int].0,
                *user == settings@[i as int].1,
                index_wf(idx@),
                forall|d: Seq<char>, t: Seq<char>|
                    #[trigger] indexed(idx@, d, t) <==> watches_before(settings@, i as int, j as int, t, d),
            decreases user.settings.len() - j,
        {
            let ghost before = idx@;
            add_watch(&mut idx, &user.settings[j].0, token);
            proof {
                assert forall|d: Seq<char>, t: Seq<char>|
                    #[trigger] indexed(idx@, d, t) <==> watches_before(settings@, i as int, j + 1, t, d) by {
                    assert(indexed(idx@, d, t) <==> (indexed(before, d, t) || (d == user.settings@[j as int].0@ && t == token@)));
                    if watches_before(settings@, i as int, j + 1, t, d) {
                        let (i2, j2) = choose|i2: int, j2: int|
                            #![trigger settings@[i2].1.settings@[j2]]
                            0 <= i2 < settings@.len() && 0 <= j2 < settings@[i2].1.settings.len() && (i2 < i || (i2 == i
                                && j2 < j + 1)) && settings@[i2].0@ == t && settings@[i2].1.settings@[j2].0@ == d;
                        if !(i2 == i && j2 == j) {
                            assert(watches_before(settings@, i as int, j as int, t, d));
                        }
                    }
                    if watches_before(settings@, i as int, j as int, t, d) {
                        let (i2, j2) = choose|i2: int, j2: int|
                            #![trigger settings@[i2].1.settings@[j2]]
                            0 <= i2 < settings@.len() && 0 <= j2 < settings@[i2].1.settings.len() && (i2 < i || (i2 == i
                                && j2 < j)) && settings@[i2].0@ == t && settings@[i2].1.settings@[j2].0@ == d;
                        assert(watches_before(settings@, i as int, j + 1, t, d));
                    }
                    if d == user.settings@[j as int].0@ && t == token@ {
                        assert(settings@[i as int].1.settings@[j as int].0@ == d);
                        assert(watches_before(settings@, i as int, j + 1, t, d));
                    }
                }
            }
            j = j + 1;
        }
        proof {
            assert forall|d: Seq<char>, t: Seq<char>|
                watches_before(settings@, i as int, j as int, t, d) <==> #[trigger] watches_before(settings@, i + 1, 0, t, d) by {
                if watches_before(settings@, i + 1, 0, t, d) {
                    let (i2, j2) = choose|i2: int, j2: int|
                        #![trigger settings@[i2].1.settings@[j2]]
                        0 <= i2 < settings@.len() && 0 <= j2 < settings@[i2].1.settings.len() && (i2 < i + 1 || (i2 == i + 1
                            && j2 < 0)) && settings@[i2].0@ == t && settings@[i2].1.settings@[j2].0@ == d;
                    assert(watches_before(settings@, i as int, j as int, t, d));
                }
            }
        }
        i = i + 1;
    }
    proof {
        assert forall|d: Seq<char>, t: Seq<char>|
            watches_before(settings@, i as int, 0, t, d) <==> #[trigger] watches(settings@, t, d) by {
            if watches(settings@, t, d) {
                let (i2, j2) = choose|i2: int, j2: int|
                    #![trigger settings@[i2].1.settings@[j2]]
                    0 <= i2 < settings@.len() && 0 <= j2 < settings@[i2].1.settings.len() && settings@[i2].0@ == t
                        && settings@[i2].1.settings@[j2].0@ == d;
                assert(watches_before(settings@, i as int, 0, t, d));
            }
        }
    }
    idx
}

impl AllUserSettings {
    /// The settings form a map of well-formed documents, and the index is well formed and
    /// lists a token under a DID exactly when that device watches the DID.
    pub open spec fn wf(&self) -> bool {
        &&& settings_map_wf(self.settings@)
        &&& index_wf(self.fcm_tokens_by_watched@)
        &&& forall|d: Seq<char>, t: Seq<char>|
            #[trigger] indexed(self.fcm_tokens_by_watched@, d, t) <==> watches(self.settings@, t, d)
    }

    /// All settings, with the index of watched accounts built from them.
    pub fn new(settings: UserSettingsMap) -> (r: Self)
        requires
            settings_map_wf(settings@),
        ensures
            r.wf(),
            r.settings@ == settings@,
            index_wf(r.fcm_tokens_by_watched@),
            forall|d: Seq<char>, t: Seq<char>|
                #[trigger] indexed(r.fcm_tokens_by_watched@, d, t) <==> watches(settings@, t, d),
    {
        let mut result = AllUserSettings { settings, fcm_tokens_by_watched: Vec::new() };
        result.rebuild_cache();
        result
    }

    /// Rebuilds the index of watched accounts from the settings: afterwards it lists a
    /// token under a DID exactly when that device's settings hold a setting for the DID.
    pub fn rebuild_cache(&mut self)
        requires
            settings_map_wf(old(self).settings@),
        ensures
            final(self).wf(),
            final(self).settings@ == old(self).settings@,
            index_wf(final(self).fcm_tokens_by_watched@),
            forall|d: Seq<char>, t: Seq<char>|
                #[trigger] indexed(final(self).fcm_tokens_by_watched@, d, t) <==> watches(old(self).settings@, t, d),
    {
        let idx = build_watch_index(&self.settings);
        self.fcm_tokens_by_watched = idx;
    }
}

/// Different post types have different names.
pub proof fn lemma_post_type_name_injective(p: PostType, q: PostType)
    ensures
        p != q ==> post_type_name(p) != post_type_name(q),
{
    if p != q {
        let np = post_type_name(p);
        let nq = post_type_name(q);
        if np.len() == nq.len() {
            assert(np[2] != nq[2]);
        }
    }
}

/// The text of a set of post types does not depend on the order in which they are held.
pub proof fn lemma_post_types_text_order_independent(p: Seq<PostType>, q: Seq<PostType>)
    requires
        p.no_duplicates(),
        q.no_duplicates(),
        forall|t: PostType| p.contains(t) <==> q.contains(t),
    ensures
        post_types_text(p) == post_types_text(q),
{
    let key = |s: Seq<char>| self_key(s);
    let np = p.map_values(|t: PostType| post_type_name(t));
    let nq = q.map_values(|t: PostType| post_type_name(t));
    assert(keys_distinct(np, key)) by {
        assert forall|i: int, j: int| 0 <= i < np.len() && 0 <= j < np.len() && i != j implies key(#[trigger] np[i]) != key(#[trigger] np[j]) by {
            lemma_post_type_name_injective(p[i], p[j]);
        }
    }
    assert(keys_distinct(nq, key)) by {
        assert forall|i: int, j: int| 0 <= i < nq.len() && 0 <= j < nq.len() && i != j implies key(#[trigger] nq[i]) != key(#[trigger] nq[j]) by {
            lemma_post_type_name_injective(q[i], q[j]);
        }
    }
    assert forall|n: Seq<char>| np.contains(n) <==> nq.contains(n) by {
        if np.contains(n) {
            let i = choose|i: int| 0 <= i < np.len() && np[i] == n;
            assert(p.contains(p[i]));
            let j = choose|j: int| 0 <= j < q.len() && q[j] == p[i];
            assert(nq[j] == n);
        }
        if nq.contains(n) {
            let i = choose|i: int| 0 <= i < nq.len() && nq[i] == n;
            assert(q.contains(q[i]));
            let j = choose|j: int| 0 <= j < p.len() && p[j] == q[i];
            assert(np[j] == n);
        }
    }
    lemma_sort_by_order_independent(np, nq, key);
}

/// A settings document in the shape the settings store gives it: no user account twice,
/// no watched DID twice among the account settings, and no post type twice in a setting.
pub open spec fn settings_canonical(u: UserSettingsView) -> bool {
    &&& u.accounts.no_duplicates()
    &&& forall|i: int, j: int|
        0 <= i < u.settings.len() && 0 <= j < u.settings.len() && i != j
            ==> (#[trigger] u.settings[i]).1.did != (#[trigger] u.settings[j]).1.did
    &&& forall|i: int| 0 <= i < u.settings.len() ==> (#[trigger] u.settings[i]).1.post_types.no_duplicates()
}

/// Every account setting of `a` has one in `b` for the same DID and the same post types.
pub open spec fn settings_covered(a: UserSettingsView, b: UserSettingsView) -> bool {
    forall|i: int|
        0 <= i < a.settings.len() ==> exists|j: int|
            0 <= j < b.settings.len() && (#[trigger] a.settings[i]).1.did == (#[trigger] b.settings[j]).1.did
                && forall|t: PostType| a.settings[i].1.post_types.contains(t) <==> b.settings[j].1.post_types.contains(t)
}

/// Two settings documents with the same token, the same user accounts and the same
/// account settings, each held in any order (and under any document id or map keys),
/// have the same canonical text, and so compare equal.
pub proof fn lemma_stringified_order_independent(a: UserSettingsView, b: UserSettingsView)
    requires
        settings_canonical(a),
        settings_canonical(b),
        a.fcm_token == b.fcm_token,
        forall|x: Seq<char>| a.accounts.contains(x) <==> b.accounts.contains(x),
        settings_covered(a, b),
        settings_covered(b, a),
    ensures
        stringified_view(a) == stringified_view(b),
{
    let skey = |s: Seq<char>| self_key(s);
    let pkey = |p: (Seq<char>, Seq<char>)| first_key(p);
    assert(keys_distinct(a.accounts, skey));
    assert(keys_distinct(b.accounts, skey));
    lemma_sort_by_order_independent(a.accounts, b.accounts, skey);
    let ea = a.settings.map_values(|e: (Seq<char>, AccountSettingView)| setting_entry(e.1));
    let eb = b.settings.map_values(|e: (Seq<char>, AccountSettingView)| setting_entry(e.1));
    assert(keys_distinct(ea, pkey)) by {
        assert forall|i: int, j: int| 0 <= i < ea.len() && 0 <= j < ea.len() && i != j implies pkey(#[trigger] ea[i]) != pkey(#[trigger] ea[j]) by {
            assert(a.settings[i].1.did != a.settings[j].1.did);
        }
    }
    assert(keys_distinct(eb, pkey)) by {
        assert forall|i: int, j: int| 0 <= i < eb.len() && 0 <= j < eb.len() && i != j implies pkey(#[trigger] eb[i]) != pkey(#[trigger] eb[j]) by {
            assert(b.settings[i].1.did != b.settings[j].1.did);
        }
    }
    assert forall|y: (Seq<char>, Seq<char>)| ea.contains(y) <==> eb.contains(y) by {
        if ea.contains(y) {
            let i = choose|i: int| 0 <= i < ea.len() && ea[i] == y;
            let j = choose|j: int|
                0 <= j < b.settings.len() && (#[trigger] a.settings[i]).1.did == (#[trigger] b.settings[j]).1.did
                    && forall|t: PostType| a.settings[i].1.post_types.contains(t) <==> b.settings[j].1.post_types.contains(t);
            lemma_post_types_text_order_independent(a.settings[i].1.post_types, b.settings[j].1.post_types);
            assert(eb[j] == y);
        }
        if eb.contains(y) {
            let i = choose|i: int| 0 <= i < eb.len() && eb[i] == y;
            let j = choose|j: int|
                0 <= j < a.settings.len() && (#[trigger] b.settings[i]).1.did == (#[trigger] a.settings[j]).1.did
                    && forall|t: PostType| b.settings[i].1.post_types.contains(t) <==> a.settings[j].1.post_types.contains(t);
            lemma_post_types_text_order_independent(b.settings[i].1.post_types, a.settings[j].1.post_types);
            assert(ea[j] == y);
        }
    }
    lemma_sort_by_order_independent(ea, eb, pkey);
}

/// Equality of settings documents is an equivalence relation.
pub proof fn lemma_settings_eq_equivalence(a: UserSettings, b: UserSettings, c: UserSettings)
    ensures
        PartialEqSpec::eq_spec(&a, &a),
        PartialEqSpec::eq_spec(&a, &b) ==> PartialEqSpec::eq_spec(&b, &a),
        PartialEqSpec::eq_spec(&a, &b) && PartialEqSpec::eq_spec(&b, &c) ==> PartialEqSpec::eq_spec(&a, &c),
{
}

/// Settings documents with the same user accounts and account settings compare equal
/// exactly when they belong to the same device: the token is part of what is compared.
pub proof fn lemma_settings_eq_needs_same_token(a: UserSettings, b: UserSettings)
    requires
        a@.accounts == b@.accounts,
        a@.settings == b@.settings,
    ensures
        PartialEqSpec::eq_spec(&a, &b) <==> a@.fcm_token == b@.fcm_token,
{
    let ta = a@.fcm_token;
    let tb = b@.fcm_token;
    let ra = stringified_view(a@);
    let rb = stringified_view(b@);
    let x = ra.subrange(ta.len() as int, ra.len() as int);
    assert(ra =~= ta + x);
    assert(rb =~= tb + x);
    if ra == rb {
        assert(ta.len() == tb.len());
        assert(ta =~= ra.subrange(0, ta.len() as int));
        assert(tb =~= rb.subrange(0, tb.len() as int));
    }
}

} // verus!
