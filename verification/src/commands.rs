//! The decision logic behind each command: what key an add files a
//! profile under, which invocations a switch performs, how a numeric
//! selection and a confirmation answer are read, and what the listing
//! and removal commands do to the store.

use vstd::prelude::*;
use vstd::string::{StrSliceExecFns, StringExecFns};
use crate::chars::{push_str_chars, str_equal, string_from_chars};
use crate::profile::{Profile, ProfileView};
use crate::store::{
    has_key, store_insert, store_remove, ProfileStore, StoreView,
};

verus! {

/// The tool's version.
pub fn version_string() -> (r: &'static str)
    ensures
        r@ == "0.1.0"@,
{
    "0.1.0"
}

/// The file name under which the store is persisted.
pub fn profile_file_name() -> (r: &'static str)
    ensures
        r@ == "profiles.json"@,
{
    "profiles.json"
}

/// The fixed profile-name prefix a service selector stands for: `"1"`
/// names GitHub and `"2"` names GitLab; anything else names no
/// service.
pub fn service_prefix(selector: &str) -> (r: Option<&'static str>)
    ensures
        match r {
            Some(p) => (selector@ == "1"@ && p@ == "GitHub"@) || (selector@ == "2"@ && p@
                == "GitLab"@),
            None => selector@ != "1"@ && selector@ != "2"@,
        },
{
    if str_equal(selector, "1") {
        Some("GitHub")
    } else if str_equal(selector, "2") {
        Some("GitLab")
    } else {
        None
    }
}

/// The key a service profile is filed under: the service name, an
/// underscore, and the user name.
pub fn service_key(service: &str, user_name: &str) -> (r: String)
    ensures
        r@ == service@ + "_"@ + user_name@,
{
    let mut k = service.to_owned();
    k.append("_");
    k.append(user_name);
    k
}

/// The profile an add builds: the key doubles as the stored profile
/// name.
pub open spec fn added_profile(
    key: Seq<char>,
    user_name: Seq<char>,
    email: Seq<char>,
    remote: Seq<char>,
) -> ProfileView {
    ProfileView { profile_name: key, name: user_name, email: email, remote: remote }
}

/// Files a profile under the given name, taken as the key as it is.
pub fn add_custom_profile(
    store: &mut ProfileStore,
    profile_name: String,
    user_name: String,
    email: String,
    remote: String,
)
    requires
        old(store).wf(),
    ensures
        final(store).wf(),
        final(store)@ == store_insert(
            old(store)@,
            profile_name@,
            added_profile(profile_name@, user_name@, email@, remote@),
        ),
{
    let key = profile_name.clone();
    let p = Profile::new(profile_name, user_name, email, remote);
    store.insert(key, p);
}

/// Files a profile under `<service>_<user name>`.
pub fn add_service_profile(
    store: &mut ProfileStore,
    service: &str,
    user_name: String,
    email: String,
    remote: String,
)
    requires
        old(store).wf(),
    ensures
        final(store).wf(),
        final(store)@ == store_insert(
            old(store)@,
            service@ + "_"@ + user_name@,
            added_profile(service@ + "_"@ + user_name@, user_name@, email@, remote@),
        ),
{
    let key = service_key(service, user_name.as_str());
    add_custom_profile(store, key, user_name, email, remote);
}

/// One invocation of the external version-control tool.
#[derive(Debug, PartialEq, Eq)]
pub enum GitAction {
    SetUserName(String),
    SetUserEmail(String),
    SetRemoteUrl(String),
}

/// The mathematical content of a `GitAction`.
pub ghost enum GitActionView {
    SetUserName(Seq<char>),
    SetUserEmail(Seq<char>),
    SetRemoteUrl(Seq<char>),
}

impl View for GitAction {
    type V = GitActionView;

    open spec fn view(&self) -> GitActionView {
        match self {
            GitAction::SetUserName(s) => GitActionView::SetUserName(s@),
            GitAction::SetUserEmail(s) => GitActionView::SetUserEmail(s@),
            GitAction::SetRemoteUrl(s) => GitActionView::SetRemoteUrl(s@),
        }
    }
}

/// The invocations that switching to profile `p` performs: set the
/// global user name, set the global user email, and set the remote URL
/// only where the profile has one.
pub open spec fn switch_plan(p: ProfileView) -> Seq<GitActionView> {
    let base = seq![
        GitActionView::SetUserName(p.name),
        GitActionView::SetUserEmail(p.email),
    ];
    if p.remote.len() == 0 {
        base
    } else {
        base.push(GitActionView::SetRemoteUrl(p.remote))
    }
}

/// Plans the invocations for one profile.
pub fn plan_switch(p: &Profile) -> (v: Vec<GitAction>)
    ensures
        v@.map_values(|a: GitAction| a@) == switch_plan(p@),
{
    let mut v: Vec<GitAction> = Vec::new();
    v.push(GitAction::SetUserName(p.name.clone()));
    v.push(GitAction::SetUserEmail(p.email.clone()));
    if p.remote.as_str().unicode_len() > 0 {
        v.push(GitAction::SetRemoteUrl(p.remote.clone()));
    }
    proof {
        assert(v@.map_values(|a: GitAction| a@) =~= switch_plan(p@));
    }
    v
}

/// What the switch command does first: report an empty store, or list
/// the keys to choose from. An empty store leads to no invocation at
/// all.
#[derive(Debug, PartialEq, Eq)]
pub enum SwitchStart {
    NoProfiles,
    Choose(Vec<String>),
}

pub fn switch_start(store: &ProfileStore) -> (r: SwitchStart)
    ensures
        match r {
            SwitchStart::NoProfiles => store@.len() == 0,
            SwitchStart::Choose(keys) => store@.len() > 0 && keys@.len() == store@.len()
                && forall|i: int| 0 <= i < keys@.len() ==> keys@[i]@ == store@[i].0,
        },
{
    if store.is_empty() {
        SwitchStart::NoProfiles
    } else {
        SwitchStart::Choose(store.keys())
    }
}

/// The chosen key and the planned invocations for the 1-based choice
/// `choice`.
pub fn switch_apply(store: &ProfileStore, choice: usize) -> (r: (String, Vec<GitAction>))
    requires
        1 <= choice <= store@.len(),
    ensures
        r.0@ == store@[choice - 1].0,
        r.1@.map_values(|a: GitAction| a@) == switch_plan(store@[choice - 1].1),
{
    let key = store.key_at(choice - 1).clone();
    let actions = plan_switch(store.profile_at(choice - 1));
    (key, actions)
}

// ---------------------------------------------------------------------
// Selection input.
// ---------------------------------------------------------------------

/// A decimal digit.
pub open spec fn is_digit(c: char) -> bool {
    48 <= c as u32 <= 57
}

/// The value of a decimal digit.
pub open spec fn digit_val(c: char) -> int {
    c as u32 - 48
}

/// Every character is a decimal digit.
pub open spec fn all_digits(s: Seq<char>) -> bool {
    forall|i: int| 0 <= i < s.len() ==> is_digit(s[i])
}

/// The value of a sequence of decimal digits.
pub open spec fn digits_val(s: Seq<char>) -> int
    decreases s.len(),
{
    if s.len() == 0 {
        0
    } else {
        digits_val(s.drop_last()) * 10 + digit_val(s.last())
    }
}

/// The integer a selection input denotes, if any: an optional plus
/// sign, then one or more decimal digits.
pub open spec fn numeral(s: Seq<char>) -> Option<int> {
    let t = if s.len() > 0 && s[0] == '+' {
        s.skip(1)
    } else {
        s
    };
    if t.len() > 0 && all_digits(t) {
        Some(digits_val(t))
    } else {
        None
    }
}

/// A valid 1-based choice among `count` listed keys: a numeral between
/// 1 and `count`. Zero, negative text, other text, and numbers past
/// the count name no choice.
pub open spec fn valid_choice(s: Seq<char>, count: int) -> Option<int> {
    match numeral(s) {
        Some(v) => if 1 <= v <= count {
            Some(v)
        } else {
            None
        },
        None => None,
    }
}

proof fn lemma_digits_val_nonneg(s: Seq<char>)
    requires
        all_digits(s),
    ensures
        digits_val(s) >= 0,
    decreases s.len(),
{
    if s.len() > 0 {
        assert(all_digits(s.drop_last()));
        lemma_digits_val_nonneg(s.drop_last());
    }
}

proof fn lemma_digits_val_prefix(s: Seq<char>, i: int)
    requires
        all_digits(s),
        0 <= i <= s.len(),
    ensures
        digits_val(s) >= digits_val(s.take(i)),
    decreases s.len() - i,
{
    if i == s.len() {
        assert(s.take(i) =~= s);
    } else {
        assert(s.take(i + 1).drop_last() =~= s.take(i));
        assert(all_digits(s.take(i)));
        assert(all_digits(s.take(i + 1)));
        lemma_digits_val_nonneg(s.take(i));
        assert(digits_val(s.take(i + 1)) >= digits_val(s.take(i)));
        lemma_digits_val_prefix(s, i + 1);
    }
}

/// Reads a selection input against `count` listed keys.
pub fn parse_choice(s: &str, count: usize) -> (r: Option<usize>)
    ensures
        match r {
            Some(i) => valid_choice(s@, count as int) == Some(i as int),
            None => valid_choice(s@, count as int) is None,
        },
{
    let len = s.unicode_len();
    let mut start: usize = 0;
    if len > 0 && s.get_char(0) == '+' {
        start = 1;
    }
    let ghost t = if s@.len() > 0 && s@[0] == '+' {
        s@.skip(1)
    } else {
        s@
    };
    if start >= len {
        return None;
    }
    let mut acc: u128 = 0;
    let mut i: usize = start;
    while i < len
        invariant
            start <= i <= len,
            len == s@.len(),
            start <= 1,
            start == 1 ==> s@.len() > 0 && s@[0] == '+' && t =~= s@.skip(1),
            start == 0 ==> (s@.len() == 0 || s@[0] != '+') && t =~= s@,
            t.len() == len - start,
            forall|j: int| 0 <= j < t.len() ==> t[j] == s@[j + start],
            all_digits(t.take(i - start)),
            acc == digits_val(t.take(i - start)),
            acc <= count as u128,
        decreases len - i,
    {
        let c = s.get_char(i);
        if !('0' <= c && c <= '9') {
            proof {
                assert(t[i - start] == c);
                assert(!is_digit(c));
                assert(!all_digits(t));
            }
            return None;
        }
        let d: u128 = (c as u32 - 48) as u128;
        let new_acc: u128 = acc * 10 + d;
        proof {
            assert(t.take(i - start + 1).drop_last() =~= t.take(i - start));
            assert(t.take(i - start + 1).last() == t[i - start]);
            assert(is_digit(c));
            assert(all_digits(t.take(i - start + 1)));
            assert(new_acc == digits_val(t.take(i - start + 1)));
        }
        if new_acc > count as u128 {
            proof {
                if all_digits(t) {
                    lemma_digits_val_prefix(t, i - start + 1);
                    assert(digits_val(t) >= new_acc > count);
                }
            }
            return None;
        }
        acc = new_acc;
        i += 1;
    }
    proof {
        assert(t.take(i - start) =~= t);
        assert(all_digits(t));
        assert(acc == digits_val(t));
    }
    if acc == 0 {
        return None;
    }
    Some(acc as usize)
}

/// The first input in a sequence that names a valid choice, with its
/// position: every input before it names none.
pub fn first_valid_choice(inputs: &Vec<String>, count: usize) -> (r: Option<(usize, usize)>)
    ensures
        match r {
            Some(p) => p.1 < inputs@.len() && valid_choice(inputs@[p.1 as int]@, count as int)
                == Some(p.0 as int) && forall|j: int|
                0 <= j < p.1 ==> valid_choice(inputs@[j]@, count as int) is None,
            None => forall|j: int|
                0 <= j < inputs@.len() ==> valid_choice(inputs@[j]@, count as int) is None,
        },
{
    let mut k: usize = 0;
    while k < inputs.len()
        invariant
            k <= inputs@.len(),
            forall|j: int| 0 <= j < k ==> valid_choice(inputs@[j]@, count as int) is None,
        decreases inputs@.len() - k,
    {
        match parse_choice(inputs[k].as_str(), count) {
            Some(i) => {
                return Some((i, k));
            }
            None => {}
        }
        k += 1;
    }
    None
}

// ---------------------------------------------------------------------
// Confirmation, identity, removal, listing.
// ---------------------------------------------------------------------

/// Whether a trimmed answer confirms: exactly the letter y, in either
/// case — the lower-cased answer must equal "y", so "yes", "n" and an
/// empty answer all decline.
pub fn is_yes(answer: &str) -> (r: bool)
    ensures
        r <==> (answer@ == "y"@ || answer@ == "Y"@),
{
    proof {
        reveal_strlit("y");
        reveal_strlit("Y");
    }
    if answer.unicode_len() == 1 {
        let c = answer.get_char(0);
        if c == 'y' {
            proof {
                assert(answer@ =~= "y"@);
            }
            true
        } else if c == 'Y' {
            proof {
                assert(answer@ =~= "Y"@);
            }
            true
        } else {
            false
        }
    } else {
        false
    }
}

/// Whether the external tool reported a whole identity: both a user
/// name and an email, trimmed, are non-empty.
pub fn has_identity(name: &str, email: &str) -> (r: bool)
    ensures
        r <==> (name@.len() > 0 && email@.len() > 0),
{
    name.unicode_len() > 0 && email.unicode_len() > 0
}

/// The outcome of a remove command.
#[derive(Debug, PartialEq, Eq)]
pub enum RemoveOutcome {
    Removed,
    NotFound,
    Cancelled,
}

/// The store after a remove command: unchanged unless confirmed.
pub open spec fn store_after_remove(s: StoreView, key: Seq<char>, confirmed: bool) -> StoreView {
    if confirmed {
        store_remove(s, key)
    } else {
        s
    }
}

/// Removes the chosen profile once the user has confirmed.
pub fn remove_profile(store: &mut ProfileStore, key: &str, confirmed: bool) -> (r: RemoveOutcome)
    requires
        old(store).wf(),
    ensures
        final(store).wf(),
        final(store)@ == store_after_remove(old(store)@, key@, confirmed),
        match r {
            RemoveOutcome::Removed => confirmed && has_key(old(store)@, key@),
            RemoveOutcome::NotFound => confirmed && !has_key(old(store)@, key@),
            RemoveOutcome::Cancelled => !confirmed,
        },
{
    if !confirmed {
        return RemoveOutcome::Cancelled;
    }
    if store.remove(key) {
        RemoveOutcome::Removed
    } else {
        RemoveOutcome::NotFound
    }
}

/// The store after a remove-all command: empty once confirmed,
/// unchanged otherwise.
pub open spec fn store_after_remove_all(s: StoreView, confirmed: bool) -> StoreView {
    if confirmed {
        Seq::empty()
    } else {
        s
    }
}

/// Empties the store once the user has confirmed; reports whether it
/// did.
pub fn remove_all_profiles(store: &mut ProfileStore, confirmed: bool) -> (r: bool)
    requires
        old(store).wf(),
    ensures
        final(store).wf(),
        final(store)@ == store_after_remove_all(old(store)@, confirmed),
        r == confirmed,
{
    if confirmed {
        store.clear();
        true
    } else {
        false
    }
}

/// Removing everything is idempotent: a confirmed remove-all leaves
/// the store empty, and a second one changes nothing and leaves it
/// empty again.
pub proof fn lemma_remove_all_idempotent(s: StoreView)
    ensures
        store_after_remove_all(s, true).len() == 0,
        store_after_remove_all(store_after_remove_all(s, true), true) == store_after_remove_all(
            s,
            true,
        ),
{
}

/// One block of the listing: the key and all four fields.
pub open spec fn listing_block(e: (Seq<char>, ProfileView)) -> Seq<char> {
    "Profile Name: "@ + e.0 + "\nService_User: "@ + e.1.profile_name + "\nUser Name: "@ + e.1.name
        + "\nEmail: "@ + e.1.email + "\nRemote: "@ + e.1.remote + "\n\n"@
}

/// The blocks of all entries, in order.
pub open spec fn listing_blocks(s: StoreView) -> Seq<char>
    decreases s.len(),
{
    if s.len() == 0 {
        Seq::empty()
    } else {
        listing_blocks(s.drop_last()) + listing_block(s.last())
    }
}

/// The whole listing text: a report for an empty store, else a header
/// and one block per entry.
pub open spec fn listing_text(s: StoreView) -> Seq<char> {
    if s.len() == 0 {
        "No profiles found.\n"@
    } else {
        "\nYour Profiles:\n--------------\n"@ + listing_blocks(s)
    }
}

/// Renders the list command's whole output.
pub fn render_listing(store: &ProfileStore) -> (r: String)
    ensures
        r@ == listing_text(store@),
{
    if store.is_empty() {
        return "No profiles found.\n".to_owned();
    }
    let mut out: Vec<char> = Vec::new();
    push_str_chars(&mut out, "\nYour Profiles:\n--------------\n");
    let n = store.len();
    let mut i: usize = 0;
    while i < n
        invariant
            i <= n,
            n == store@.len(),
            n > 0,
            out@ == "\nYour Profiles:\n--------------\n"@ + listing_blocks(store@.take(i as int)),
        decreases n - i,
    {
        push_str_chars(&mut out, "Profile Name: ");
        push_str_chars(&mut out, store.key_at(i).as_str());
        push_str_chars(&mut out, "\nService_User: ");
        push_str_chars(&mut out, store.profile_at(i).profile_name.as_str());
        push_str_chars(&mut out, "\nUser Name: ");
        push_str_chars(&mut out, store.profile_at(i).name.as_str());
        push_str_chars(&mut out, "\nEmail: ");
        push_str_chars(&mut out, store.profile_at(i).email.as_str());
        push_str_chars(&mut out, "\nRemote: ");
        push_str_chars(&mut out, store.profile_at(i).remote.as_str());
        push_str_chars(&mut out, "\n\n");
        proof {
            assert(store@.take(i + 1).drop_last() =~= store@.take(i as int));
            assert(store@.take(i + 1).last() == store@[i as int]);
            assert(out@ =~= "\nYour Profiles:\n--------------\n"@ + listing_blocks(
                store@.take(i + 1),
            ));
        }
        i += 1;
    }
    proof {
        assert(store@.take(n as int) =~= store@);
    }
    string_from_chars(&out)
}

} // verus!
