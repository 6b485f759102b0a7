//! The stored preferences: the autosave folder and the credentials, kept
//! as a text map under fixed keys.
use vstd::prelude::*;
use vstd::string::*;

use crate::string_map::{
    lemma_lookup_after_insert, lookup, map_insert, Entries, StringMap,
};

verus! {

/// The stored preferences; each is absent until set.
#[derive(Debug, Clone)]
pub struct Pref {
    pub autosave_path: Option<String>,
    pub username: Option<String>,
    pub password: Option<String>,
}

/// The plain content of a [`Pref`].
pub struct PrefView {
    pub autosave_path: Option<Seq<char>>,
    pub username: Option<Seq<char>>,
    pub password: Option<Seq<char>>,
}

impl View for Pref {
    type V = PrefView;

    open spec fn view(&self) -> PrefView {
        PrefView {
            autosave_path: self.autosave_path.deep_view(),
            username: self.username.deep_view(),
            password: self.password.deep_view(),
        }
    }
}

impl Default for Pref {
    /// No preference set.
    fn default() -> (p: Pref)
        ensures
            p.autosave_path is None,
            p.username is None,
            p.password is None,
    {
        Pref { autosave_path: None, username: None, password: None }
    }
}

/// `e` with `k` bound to the value, when there is one.
pub open spec fn insert_present(e: Entries, k: Seq<char>, v: Option<Seq<char>>) -> Entries {
    match v {
        Some(x) => map_insert(e, k, x),
        None => e,
    }
}

/// The stored map of the preferences: the keys `autosave_path`,
/// `username` and `password`, each only when set.
pub open spec fn pref_entries(p: PrefView) -> Entries {
    insert_present(
        insert_present(insert_present(Seq::empty(), "autosave_path"@, p.autosave_path), "username"@, p.username),
        "password"@,
        p.password,
    )
}

/// The preferences read back from a stored map.
pub open spec fn pref_of_entries(e: Entries) -> PrefView {
    PrefView {
        autosave_path: lookup(e, "autosave_path"@),
        username: lookup(e, "username"@),
        password: lookup(e, "password"@),
    }
}

/// Inserting the same key again when present, or leaving the map, keeps
/// what a lookup gives for other keys.
proof fn lemma_lookup_insert_present(e: Entries, k: Seq<char>, v: Option<Seq<char>>, k2: Seq<char>)
    ensures
        lookup(insert_present(e, k, v), k2) == if k2 == k && v is Some { v } else { lookup(e, k2) },
{
    if let Some(x) = v {
        lemma_lookup_after_insert(e, k, x, k2);
    }
}

/// Saving then loading gives back the same preferences.
pub proof fn lemma_pref_roundtrip(p: PrefView)
    ensures
        pref_of_entries(pref_entries(p)) == p,
{
    reveal_strlit("autosave_path");
    reveal_strlit("username");
    reveal_strlit("password");
    assert("autosave_path"@[0] != "username"@[0]);
    assert("autosave_path"@[0] != "password"@[0]);
    assert("autosave_path"@ != "username"@);
    assert("autosave_path"@ != "password"@);
    assert("username"@ != "password"@);
    let e0 = Seq::<(Seq<char>, Seq<char>)>::empty();
    let e1 = insert_present(e0, "autosave_path"@, p.autosave_path);
    let e2 = insert_present(e1, "username"@, p.username);
    let e3 = insert_present(e2, "password"@, p.password);
    assert(lookup(e0, "autosave_path"@) is None);
    assert(lookup(e0, "username"@) is None);
    assert(lookup(e0, "password"@) is None);
    lemma_lookup_insert_present(e0, "autosave_path"@, p.autosave_path, "autosave_path"@);
    lemma_lookup_insert_present(e0, "autosave_path"@, p.autosave_path, "username"@);
    lemma_lookup_insert_present(e0, "autosave_path"@, p.autosave_path, "password"@);
    lemma_lookup_insert_present(e1, "username"@, p.username, "autosave_path"@);
    lemma_lookup_insert_present(e1, "username"@, p.username, "username"@);
    lemma_lookup_insert_present(e1, "username"@, p.username, "password"@);
    lemma_lookup_insert_present(e2, "password"@, p.password, "autosave_path"@);
    lemma_lookup_insert_present(e2, "password"@, p.password, "username"@);
    lemma_lookup_insert_present(e2, "password"@, p.password, "password"@);
}

/// Binds `k` to a copy of the value, when there is one.
fn insert_if_set(m: &mut StringMap, k: &str, v: &Option<String>)
    ensures
        final(m)@ == insert_present(old(m)@, k@, v.deep_view()),
{
    match v {
        Some(x) => m.insert(String::from_str(k), x.clone()),
        None => {},
    }
}

/// A copy of the value stored under `k`.
fn get_owned(m: &StringMap, k: &str) -> (r: Option<String>)
    ensures
        r.deep_view() == lookup(m@, k@),
{
    match m.get(k) {
        Some(v) => Some(v.clone()),
        None => None,
    }
}

impl Pref {
    /// The map the preferences are stored as.
    pub fn to_map(&self) -> (m: StringMap)
        ensures
            m@ == pref_entries(self@),
    {
        let mut m = StringMap::new();
        insert_if_set(&mut m, "autosave_path", &self.autosave_path);
        insert_if_set(&mut m, "username", &self.username);
        insert_if_set(&mut m, "password", &self.password);
        m
    }

    /// The preferences held in a stored map.
    pub fn from_map(m: &StringMap) -> (p: Pref)
        ensures
            p@ == pref_of_entries(m@),
    {
        Pref {
            autosave_path: get_owned(m, "autosave_path"),
            username: get_owned(m, "username"),
            password: get_owned(m, "password"),
        }
    }
}

} // verus!
