//! The declared state: groups, persons and OAuth2 clients, each keyed by a
//! lower-case name.
use vstd::prelude::*;
use crate::error::SyncError;
use crate::remote::Kind;
use crate::text::same_text;

verus! {

/// A declared group.
#[derive(Debug)]
pub struct Group {
    pub present: bool,
    pub members: Vec<String>,
    pub overwrite_members: bool,
}

/// A declared person.
#[derive(Debug)]
pub struct Person {
    pub present: bool,
    pub display_name: String,
    pub legal_name: Option<String>,
    pub mail_addresses: Option<Vec<String>>,
}

/// The values of one claim: its join type literal and the values per group.
#[derive(Debug)]
pub struct ClaimMap {
    pub join_type: String,
    pub values_by_group: Vec<(String, Vec<String>)>,
}

/// One string or several.
#[derive(Debug)]
pub enum StringOrStrings {
    String(String),
    Strings(Vec<String>),
}

impl StringOrStrings {
    /// The strings held, as a list.
    pub open spec fn spec_strings(&self) -> Seq<Seq<char>> {
        match self {
            StringOrStrings::String(x) => seq![x@],
            StringOrStrings::Strings(xs) => xs.deep_view(),
        }
    }

    pub fn strings(self) -> (r: Vec<String>)
        ensures
            r.deep_view() == self.spec_strings(),
    {
        match self {
            StringOrStrings::String(x) => {
                let r = vec![x];
                assert(r.deep_view() =~= seq![x@]);
                r
            },
            StringOrStrings::Strings(xs) => xs,
        }
    }

    /// The strings held, as a new list.
    pub fn to_strings(&self) -> (r: Vec<String>)
        ensures
            r.deep_view() == self.spec_strings(),
    {
        match self {
            StringOrStrings::String(x) => {
                let r = vec![x.clone()];
                assert(r.deep_view() =~= seq![x@]);
                r
            },
            StringOrStrings::Strings(xs) => xs.clone(),
        }
    }
}

/// A declared OAuth2 client.
#[derive(Debug)]
pub struct Oauth2System {
    pub present: bool,
    pub public: bool,
    pub display_name: String,
    pub basic_secret_file: Option<String>,
    pub image_file: Option<String>,
    pub origin_url: StringOrStrings,
    pub origin_landing: String,
    pub enable_localhost_redirects: bool,
    pub enable_legacy_crypto: bool,
    pub allow_insecure_client_disable_pkce: bool,
    pub prefer_short_username: bool,
    pub scope_maps: Vec<(String, Vec<String>)>,
    pub supplementary_scope_maps: Vec<(String, Vec<String>)>,
    pub remove_orphaned_claim_maps: bool,
    pub claim_maps: Vec<(String, ClaimMap)>,
}

/// The declared systems.
#[derive(Debug)]
pub struct Systems {
    pub oauth2: Vec<(String, Oauth2System)>,
}

/// The whole declaration.
#[derive(Debug)]
pub struct State {
    pub groups: Vec<(String, Group)>,
    pub persons: Vec<(String, Person)>,
    pub systems: Systems,
}

/// No key occurs twice in a keyed list.
pub open spec fn distinct_keys<T>(entries: Seq<(String, T)>) -> bool {
    forall|i: int, j: int| 0 <= i < j < entries.len() ==> entries[i].0@ != entries[j].0@
}

/// Whether no key occurs twice in a keyed list.
pub fn keys_are_distinct<T>(entries: &Vec<(String, T)>) -> (r: bool)
    ensures
        r == distinct_keys(entries@),
{
    let mut j: usize = 0;
    while j < entries.len()
        invariant
            j <= entries.len(),
            forall|a: int, b: int| 0 <= a < b < j ==> entries@[a].0@ != entries@[b].0@,
        decreases entries.len() - j,
    {
        let mut i: usize = 0;
        while i < j
            invariant
                i <= j < entries.len(),
                forall|a: int| 0 <= a < i ==> entries@[a].0@ != entries@[j as int].0@,
            decreases j - i,
        {
            if same_text(entries[i].0.as_str(), entries[j].0.as_str()) {
                return false;
            }
            i = i + 1;
        }
        j = j + 1;
    }
    true
}

impl Oauth2System {
    /// Scope-map groups, claims, and each claim's groups are keys: none occurs
    /// twice.
    pub open spec fn well_formed(&self) -> bool {
        &&& distinct_keys(self.scope_maps@)
        &&& distinct_keys(self.supplementary_scope_maps@)
        &&& distinct_keys(self.claim_maps@)
        &&& forall|i: int|
            0 <= i < self.claim_maps@.len() ==> distinct_keys(
                #[trigger] self.claim_maps@[i].1.values_by_group@,
            )
    }

    pub fn has_distinct_keys(&self) -> (r: bool)
        ensures
            r == self.well_formed(),
    {
        if !keys_are_distinct(&self.scope_maps) || !keys_are_distinct(&self.supplementary_scope_maps)
            || !keys_are_distinct(&self.claim_maps) {
            return false;
        }
        let mut i: usize = 0;
        while i < self.claim_maps.len()
            invariant
                i <= self.claim_maps.len(),
                forall|t: int| 0 <= t < i ==> distinct_keys(#[trigger] self.claim_maps@[t].1.values_by_group@),
            decreases self.claim_maps.len() - i,
        {
            if !keys_are_distinct(&self.claim_maps[i].1.values_by_group) {
                return false;
            }
            i = i + 1;
        }
        true
    }
}

/// The first index at or after `i` of a client that is not well formed, or the
/// number of clients.
pub open spec fn first_ill_formed(clients: Seq<(String, Oauth2System)>, i: int) -> int
    decreases clients.len() - i,
{
    if i < 0 || i >= clients.len() {
        clients.len() as int
    } else if !clients[i].1.well_formed() {
        i
    } else {
        first_ill_formed(clients, i + 1)
    }
}

proof fn lemma_none_ill_formed(clients: Seq<(String, Oauth2System)>, i: int, k: int)
    requires
        0 <= i <= k < clients.len(),
        first_ill_formed(clients, i) == clients.len(),
    ensures
        clients[k].1.well_formed(),
    decreases k - i,
{
    if i < k {
        lemma_none_ill_formed(clients, i + 1, k);
    }
}

/// The default of a flag that is off unless declared.
pub fn default_false() -> (r: bool)
    ensures
        !r,
{
    false
}

/// The default of a flag that is on unless declared.
pub fn default_true() -> (r: bool)
    ensures
        r,
{
    true
}

/// What `str::to_lowercase` gives for a string.
pub uninterp spec fn lower_of(s: Seq<char>) -> Seq<char>;

/// Relies on `str::to_lowercase`: its result depends on the characters alone.
#[verifier::external_body]
pub(crate) fn lowercase(s: &str) -> (r: String)
    ensures
        r@ == lower_of(s@),
{
    s.to_lowercase()
}

/// The names of a list of keyed entries.
pub open spec fn keys_of<T>(entries: Seq<(String, T)>) -> Seq<Seq<char>> {
    entries.map_values(|e: (String, T)| e.0@)
}

/// The declared names in the order the check reads them: persons, groups,
/// then OAuth2 clients.
pub open spec fn checked_keys(
    groups: Seq<(String, Group)>,
    persons: Seq<(String, Person)>,
    systems: Systems,
) -> Seq<Seq<char>> {
    keys_of(persons) + keys_of(groups) + keys_of(systems.oauth2@)
}

/// The first index at or after `i` where `keys` and `lowered` differ, or the
/// length of `keys`.
pub open spec fn first_changed(keys: Seq<Seq<char>>, lowered: Seq<Seq<char>>, i: int) -> int
    decreases keys.len() - i,
{
    if i < 0 || i >= keys.len() {
        keys.len() as int
    } else if keys[i] != lowered[i] {
        i
    } else {
        first_changed(keys, lowered, i + 1)
    }
}

/// The first key that differs from its lower-case form, given each key's
/// lower-case form.
pub fn first_not_lowercase(keys: &Vec<String>, lowered: &Vec<String>) -> (r: Option<usize>)
    requires
        keys.len() == lowered.len(),
    ensures
        match r {
            Some(i) => i < keys.len() && i == first_changed(keys.deep_view(), lowered.deep_view(), 0),
            None => first_changed(keys.deep_view(), lowered.deep_view(), 0) == keys.len(),
        },
{
    let mut i: usize = 0;
    while i < keys.len()
        invariant
            i <= keys.len(),
            keys.len() == lowered.len(),
            first_changed(keys.deep_view(), lowered.deep_view(), i as int) == first_changed(
                keys.deep_view(),
                lowered.deep_view(),
                0,
            ),
        decreases keys.len() - i,
    {
        if !same_text(keys[i].as_str(), lowered[i].as_str()) {
            return Some(i);
        }
        i = i + 1;
    }
    None
}

fn push_keys<T>(out: &mut Vec<String>, entries: &Vec<(String, T)>)
    ensures
        final(out).deep_view() == old(out).deep_view() + keys_of(entries@),
{
    let ghost start = out.deep_view();
    let mut i: usize = 0;
    while i < entries.len()
        invariant
            i <= entries.len(),
            out.deep_view() =~= start + keys_of(entries@.subrange(0, i as int)),
        decreases entries.len() - i,
    {
        let ghost prev = out.deep_view();
        out.push(entries[i].0.clone());
        assert(out.deep_view() =~= prev.push(entries@[i as int].0@));
        i = i + 1;
        assert(entries@.subrange(0, i as int) =~= entries@.subrange(0, i - 1).push(
            entries@[i - 1],
        ));
    }
    assert(entries@.subrange(0, i as int) =~= entries@);
}

fn lowercase_all(keys: &Vec<String>) -> (r: Vec<String>)
    ensures
        r.len() == keys.len(),
        r.deep_view() == keys.deep_view().map_values(|k: Seq<char>| lower_of(k)),
{
    let mut out: Vec<String> = Vec::new();
    let mut i: usize = 0;
    while i < keys.len()
        invariant
            i <= keys.len(),
            out.deep_view() =~= keys.deep_view().subrange(0, i as int).map_values(
                |k: Seq<char>| lower_of(k),
            ),
        decreases keys.len() - i,
    {
        let ghost prev = out.deep_view();
        out.push(lowercase(keys[i].as_str()));
        assert(out.deep_view() =~= prev.push(lower_of(keys[i as int]@)));
        i = i + 1;
        assert(keys.deep_view().subrange(0, i as int) =~= keys.deep_view().subrange(0, i - 1).push(
            keys[i - 1]@,
        ));
    }
    assert(keys.deep_view().subrange(0, i as int) =~= keys.deep_view());
    out
}

impl State {
    /// Within each kind no name is declared twice, and every declared OAuth2
    /// client is well formed.
    pub open spec fn well_formed(&self) -> bool {
        &&& distinct_keys(self.groups@)
        &&& distinct_keys(self.persons@)
        &&& distinct_keys(self.systems.oauth2@)
        &&& forall|k: int|
            0 <= k < self.systems.oauth2@.len() ==> (#[trigger] self.systems.oauth2@[k]).1.well_formed()
    }

    /// A declaration, refused when a name of a person, group or OAuth2 client
    /// is not in lower case (the service reports names in lower case), when a
    /// kind declares a name twice, or when an OAuth2 client repeats a key of
    /// one of its maps.
    pub fn new(groups: Vec<(String, Group)>, persons: Vec<(String, Person)>, systems: Systems) -> (r:
        Result<State, SyncError>)
        ensures
            ({
                let keys = checked_keys(groups@, persons@, systems);
                let lowered = keys.map_values(|k: Seq<char>| lower_of(k));
                let i = first_changed(keys, lowered, 0);
                if i < keys.len() {
                    match r {
                        Err(SyncError::NotLowercase { key }) => key@ == keys[i],
                        _ => false,
                    }
                } else if !distinct_keys(groups@) {
                    r matches Err(SyncError::RepeatedName { kind: Kind::Group })
                } else if !distinct_keys(persons@) {
                    r matches Err(SyncError::RepeatedName { kind: Kind::Person })
                } else if !distinct_keys(systems.oauth2@) {
                    r matches Err(SyncError::RepeatedName { kind: Kind::Oauth2 })
                } else {
                    let c = first_ill_formed(systems.oauth2@, 0);
                    if c < systems.oauth2@.len() {
                        match r {
                            Err(SyncError::DuplicateKey { client }) => client@ == systems.oauth2@[c].0@,
                            _ => false,
                        }
                    } else {
                        r == Ok::<State, SyncError>(State { groups, persons, systems })
                    }
                }
            }),
            r is Ok ==> r->Ok_0.well_formed(),
    {
        let mut keys: Vec<String> = Vec::new();
        push_keys(&mut keys, &persons);
        push_keys(&mut keys, &groups);
        push_keys(&mut keys, &systems.oauth2);
        let lowered = lowercase_all(&keys);
        match first_not_lowercase(&keys, &lowered) {
            Some(i) => {
                return Err(SyncError::NotLowercase { key: keys[i].clone() });
            },
            None => {},
        }
        let ghost ks = checked_keys(groups@, persons@, systems);
        assert(first_changed(ks, ks.map_values(|k: Seq<char>| lower_of(k)), 0) == ks.len()) by {
            assert(keys.deep_view() =~= ks);
            assert(lowered.deep_view() =~= ks.map_values(|k: Seq<char>| lower_of(k)));
        }
        if !keys_are_distinct(&groups) {
            return Err(SyncError::RepeatedName { kind: Kind::Group });
        }
        if !keys_are_distinct(&persons) {
            return Err(SyncError::RepeatedName { kind: Kind::Person });
        }
        if !keys_are_distinct(&systems.oauth2) {
            return Err(SyncError::RepeatedName { kind: Kind::Oauth2 });
        }
        let mut c: usize = 0;
        while c < systems.oauth2.len()
            invariant
                c <= systems.oauth2.len(),
                distinct_keys(groups@),
                distinct_keys(persons@),
                distinct_keys(systems.oauth2@),
                ks == checked_keys(groups@, persons@, systems),
                first_changed(ks, ks.map_values(|k: Seq<char>| lower_of(k)), 0) == ks.len(),
                first_ill_formed(systems.oauth2@, c as int) == first_ill_formed(systems.oauth2@, 0),
            decreases systems.oauth2.len() - c,
        {
            if !systems.oauth2[c].1.has_distinct_keys() {
                return Err(SyncError::DuplicateKey { client: systems.oauth2[c].0.clone() });
            }
            c = c + 1;
        }
        let r = State { groups, persons, systems };
        proof {
            assert forall|k: int| 0 <= k < r.systems.oauth2@.len() implies (
            #[trigger] r.systems.oauth2@[k]).1.well_formed() by {
                lemma_none_ill_formed(r.systems.oauth2@, 0, k);
            }
        }
        Ok(r)
    }
}

} // verus!
