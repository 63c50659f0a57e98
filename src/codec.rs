//! The textual grammars in which the directory service reports composite
//! attribute values: realm-qualified names, scope-map entries and claim-map
//! entries with their join-type delimiter.
use vstd::prelude::*;
use vstd::multiset::Multiset;
use crate::text::{
    after_first, before_char, prefix_before, split_by, split_on, suffix_after,
    trim_both, trim_char, trim_end, trim_end_char, trim_start, trim_start_char, same_text,
};

verus! {

broadcast use vstd::seq_lib::group_to_multiset_ensures;

/// How the values of one claim are joined into a single token.
#[derive(Clone, Copy, Debug, PartialEq, Eq, Structural)]
pub enum JoinType {
    /// Space-separated values.
    Ssv,
    /// Comma-separated values.
    Csv,
    /// A JSON array.
    Array,
}

impl JoinType {
    /// The delimiter the service stores for this join type.
    pub open spec fn spec_delimiter(self) -> char {
        match self {
            JoinType::Ssv => ' ',
            JoinType::Csv => ',',
            JoinType::Array => ';',
        }
    }

    /// The join type that a stored delimiter stands for; anything unknown reads
    /// as an array.
    pub open spec fn spec_from_delimiter(d: Seq<char>) -> JoinType {
        if d == seq![' '] {
            JoinType::Ssv
        } else if d == seq![','] {
            JoinType::Csv
        } else {
            JoinType::Array
        }
    }

    /// The literal that names this join type in a declaration.
    pub open spec fn spec_literal(self) -> Seq<char> {
        match self {
            JoinType::Ssv => "ssv"@,
            JoinType::Csv => "csv"@,
            JoinType::Array => "array"@,
        }
    }

    /// The join type a declaration literal names, if any.
    pub open spec fn spec_parse(s: Seq<char>) -> Option<JoinType> {
        if s == "ssv"@ {
            Some(JoinType::Ssv)
        } else if s == "csv"@ {
            Some(JoinType::Csv)
        } else if s == "array"@ {
            Some(JoinType::Array)
        } else {
            None
        }
    }

    pub fn delimiter(&self) -> (r: char)
        ensures
            r == self.spec_delimiter(),
    {
        match self {
            JoinType::Ssv => ' ',
            JoinType::Csv => ',',
            JoinType::Array => ';',
        }
    }

    pub fn from_delimiter(d: &str) -> (r: JoinType)
        ensures
            r == JoinType::spec_from_delimiter(d@),
    {
        if d.unicode_len() == 1 {
            let c = d.get_char(0);
            if c == ' ' {
                assert(d@ =~= seq![' ']);
                return JoinType::Ssv;
            } else if c == ',' {
                assert(d@ =~= seq![',']);
                return JoinType::Csv;
            }
            assert(d@ != seq![' '] && d@ != seq![',']) by {
                assert(seq![' '][0] == ' ');
                assert(seq![','][0] == ',');
            }
        }
        JoinType::Array
    }

    pub fn literal(&self) -> (r: &'static str)
        ensures
            r@ == self.spec_literal(),
    {
        match self {
            JoinType::Ssv => "ssv",
            JoinType::Csv => "csv",
            JoinType::Array => "array",
        }
    }

    /// Reads a declaration literal; `None` unless it is `ssv`, `csv` or `array`.
    pub fn parse(s: &str) -> (r: Option<JoinType>)
        ensures
            r == JoinType::spec_parse(s@),
    {
        if same_text(s, "ssv") {
            Some(JoinType::Ssv)
        } else if same_text(s, "csv") {
            Some(JoinType::Csv)
        } else if same_text(s, "array") {
            Some(JoinType::Array)
        } else {
            None
        }
    }
}

/// A name with its realm qualification (`name@domain`) removed.
pub open spec fn unqualified(s: Seq<char>) -> Seq<char> {
    before_char(s, '@')
}

/// Every name of `s` with its realm qualification removed.
pub open spec fn unqualified_all(s: Seq<Seq<char>>) -> Seq<Seq<char>> {
    s.map_values(|x: Seq<char>| unqualified(x))
}

pub fn strip_realm(s: &str) -> (r: String)
    ensures
        r@ == unqualified(s@),
{
    prefix_before(s, '@')
}

pub fn strip_realm_all(v: &Vec<String>) -> (r: Vec<String>)
    ensures
        r.deep_view() == unqualified_all(v.deep_view()),
{
    let mut out: Vec<String> = Vec::new();
    let mut i: usize = 0;
    while i < v.len()
        invariant
            i <= v.len(),
            out.deep_view() =~= unqualified_all(v.deep_view().subrange(0, i as int)),
        decreases v.len() - i,
    {
        let ghost prev = out.deep_view();
        out.push(strip_realm(v[i].as_str()));
        assert(out.deep_view() =~= prev.push(unqualified(v[i as int]@)));
        i = i + 1;
        assert(v.deep_view().subrange(0, i as int) =~= v.deep_view().subrange(0, i - 1).push(
            v[i - 1]@,
        ));
    }
    assert(v.deep_view().subrange(0, i as int) =~= v.deep_view());
    out
}

/// Whether two lists hold the same values in the same order.
pub fn same_list(a: &Vec<String>, b: &Vec<String>) -> (r: bool)
    ensures
        r == (a.deep_view() == b.deep_view()),
{
    if a.len() != b.len() {
        assert(a.deep_view().len() != b.deep_view().len());
        return false;
    }
    let mut i: usize = 0;
    while i < a.len()
        invariant
            i <= a.len(),
            a.len() == b.len(),
            forall|t: int| 0 <= t < i ==> a.deep_view()[t] == b.deep_view()[t],
        decreases a.len() - i,
    {
        if !same_text(a[i].as_str(), b[i].as_str()) {
            assert(a.deep_view()[i as int] != b.deep_view()[i as int]);
            return false;
        }
        i = i + 1;
    }
    assert(a.deep_view() =~= b.deep_view());
    true
}

/// The same values with the same multiplicities, in any order.
pub open spec fn same_values(a: Seq<Seq<char>>, b: Seq<Seq<char>>) -> bool {
    a.to_multiset() == b.to_multiset()
}

/// Whether `a` and `b` hold the same values with the same multiplicities.
pub fn same_value_set(a: &Vec<String>, b: &Vec<String>) -> (r: bool)
    ensures
        r == same_values(a.deep_view(), b.deep_view()),
{
    let ghost av = a.deep_view();
    let ghost bv = b.deep_view();
    let mut rest: Vec<String> = Vec::new();
    let mut k: usize = 0;
    while k < b.len()
        invariant
            k <= b.len(),
            bv == b.deep_view(),
            rest.deep_view() =~= bv.subrange(0, k as int),
        decreases b.len() - k,
    {
        let ghost prev = rest.deep_view();
        rest.push(b[k].clone());
        assert(rest.deep_view() =~= prev.push(bv[k as int]));
        assert(bv.subrange(0, k + 1) =~= bv.subrange(0, k as int).push(bv[k as int]));
        k = k + 1;
    }
    assert(bv.subrange(0, b.len() as int) =~= bv);
    let mut i: usize = 0;
    while i < a.len()
        invariant
            i <= a.len(),
            av == a.deep_view(),
            bv == b.deep_view(),
            av.subrange(0, i as int).to_multiset().add(rest.deep_view().to_multiset())
                =~= bv.to_multiset(),
        decreases a.len() - i,
    {
        let mut j: usize = 0;
        while j < rest.len() && !same_text(rest[j].as_str(), a[i].as_str())
            invariant
                j <= rest.len(),
                i < a.len(),
                av == a.deep_view(),
                forall|t: int| 0 <= t < j ==> rest.deep_view()[t] != av[i as int],
            decreases rest.len() - j,
        {
            j = j + 1;
        }
        if j == rest.len() {
            proof {
                let x = av[i as int];
                assert(!rest.deep_view().contains(x));
                assert(av =~= av.subrange(0, i as int) + av.subrange(i as int, av.len() as int));
                vstd::seq_lib::lemma_multiset_commutative(
                    av.subrange(0, i as int),
                    av.subrange(i as int, av.len() as int),
                );
                assert(av.subrange(i as int, av.len() as int).contains(x)) by {
                    assert(av.subrange(i as int, av.len() as int)[0] == x);
                }
                assert(av.to_multiset().count(x) > bv.to_multiset().count(x));
                assert(av.to_multiset() != bv.to_multiset());
            }
            return false;
        }
        let ghost old_rest = rest.deep_view();
        let ghost x = av[i as int];
        rest.remove(j);
        proof {
            assert(rest.deep_view() =~= old_rest.remove(j as int));
            assert(av.subrange(0, i + 1) =~= av.subrange(0, i as int).push(x));
            assert(old_rest[j as int] == x);
        }
        i = i + 1;
    }
    assert(av.subrange(0, a.len() as int) =~= av);
    if rest.len() == 0 {
        assert(rest.deep_view().to_multiset() =~= Multiset::empty()) by {
            assert(rest.deep_view() =~= Seq::empty());
        }
        assert(av.to_multiset() =~= bv.to_multiset());
        true
    } else {
        proof {
            let y = rest.deep_view()[0];
            assert(rest.deep_view().contains(y));
            assert(bv.to_multiset().count(y) > av.to_multiset().count(y));
            assert(av.to_multiset() != bv.to_multiset());
        }
        false
    }
}

/// Text order: lexicographic by code point.
pub open spec fn text_le(a: Seq<char>, b: Seq<char>) -> bool
    decreases a.len(),
{
    if a.len() == 0 {
        true
    } else if b.len() == 0 {
        false
    } else if a[0] != b[0] {
        (a[0] as u32) < (b[0] as u32)
    } else {
        text_le(a.drop_first(), b.drop_first())
    }
}

/// The texts are in ascending text order.
pub open spec fn sorted_texts(s: Seq<Seq<char>>) -> bool {
    forall|i: int, j: int| 0 <= i < j < s.len() ==> text_le(s[i], s[j])
}

/// The values of `s` in ascending text order.
pub open spec fn sorted_form(s: Seq<Seq<char>>) -> Seq<Seq<char>> {
    choose|v: Seq<Seq<char>>| sorted_texts(v) && v.to_multiset() == s.to_multiset()
}

proof fn lemma_text_le_reflexive(a: Seq<char>)
    ensures
        text_le(a, a),
    decreases a.len(),
{
    if a.len() > 0 {
        lemma_text_le_reflexive(a.drop_first());
    }
}

proof fn lemma_text_le_antisymmetric(a: Seq<char>, b: Seq<char>)
    requires
        text_le(a, b),
        text_le(b, a),
    ensures
        a == b,
    decreases a.len(),
{
    if a.len() > 0 && b.len() > 0 {
        if a[0] == b[0] {
            lemma_text_le_antisymmetric(a.drop_first(), b.drop_first());
            assert(a =~= seq![a[0]] + a.drop_first());
            assert(b =~= seq![b[0]] + b.drop_first());
        }
    } else {
        assert(a.len() == 0 && b.len() == 0);
        assert(a =~= b);
    }
}

/// Two sorted arrangements of the same values are the same list.
proof fn lemma_sorted_unique(a: Seq<Seq<char>>, b: Seq<Seq<char>>)
    requires
        sorted_texts(a),
        sorted_texts(b),
        a.to_multiset() == b.to_multiset(),
    ensures
        a == b,
    decreases a.len(),
{
    if a.len() == 0 {
        assert(a.to_multiset().len() == 0);
        assert(b.to_multiset().len() == b.len());
        assert(b =~= a);
    } else {
        assert(a.to_multiset().len() == a.len());
        assert(b.to_multiset().len() == b.len());
        assert(b.len() == a.len());
        assert(a.contains(a[0]));
        assert(b.to_multiset().count(a[0]) > 0);
        let k = choose|k: int| 0 <= k < b.len() && b[k] == a[0];
        lemma_text_le_reflexive(b[0]);
        assert(text_le(b[0], a[0]));
        assert(b.contains(b[0]));
        assert(a.to_multiset().count(b[0]) > 0);
        let m = choose|m: int| 0 <= m < a.len() && a[m] == b[0];
        lemma_text_le_reflexive(a[0]);
        assert(text_le(a[0], b[0]));
        lemma_text_le_antisymmetric(a[0], b[0]);
        assert(a.remove(0) =~= a.drop_first());
        assert(b.remove(0) =~= b.drop_first());
        assert(a.drop_first().to_multiset() == a.to_multiset().remove(a[0]));
        assert(b.drop_first().to_multiset() == b.to_multiset().remove(b[0]));
        assert forall|i: int, j: int| 0 <= i < j < a.drop_first().len() implies text_le(
            a.drop_first()[i],
            a.drop_first()[j],
        ) by {
            assert(text_le(a[i + 1], a[j + 1]));
        }
        assert forall|i: int, j: int| 0 <= i < j < b.drop_first().len() implies text_le(
            b.drop_first()[i],
            b.drop_first()[j],
        ) by {
            assert(text_le(b[i + 1], b[j + 1]));
        }
        lemma_sorted_unique(a.drop_first(), b.drop_first());
        assert(a =~= seq![a[0]] + a.drop_first());
        assert(b =~= seq![b[0]] + b.drop_first());
    }
}

/// Relies on `slice::sort_unstable` for `String`: the result is a permutation
/// in ascending `Ord` order, and `String`'s `Ord` compares the UTF-8 bytes
/// lexicographically, which orders the characters by code point.
#[verifier::external_body]
fn sort_texts(v: &mut Vec<String>)
    ensures
        final(v).deep_view().to_multiset() == old(v).deep_view().to_multiset(),
        sorted_texts(final(v).deep_view()),
{
    v.sort_unstable()
}

/// The values in ascending text order.
pub fn sorted_values(v: Vec<String>) -> (r: Vec<String>)
    ensures
        r.deep_view() == sorted_form(v.deep_view()),
{
    let ghost s = v.deep_view();
    let mut v = v;
    sort_texts(&mut v);
    proof {
        let w = v.deep_view();
        assert(sorted_texts(w) && w.to_multiset() == s.to_multiset());
        let c = sorted_form(s);
        assert(sorted_texts(c) && c.to_multiset() == s.to_multiset());
        lemma_sorted_unique(w, c);
    }
    v
}

/// Whether `s` is one of the values in `v`.
pub fn contains_name(v: &Vec<String>, s: &str) -> (r: bool)
    ensures
        r == v.deep_view().contains(s@),
{
    let mut i: usize = 0;
    while i < v.len()
        invariant
            i <= v.len(),
            forall|t: int| 0 <= t < i ==> v.deep_view()[t] != s@,
        decreases v.len() - i,
    {
        if same_text(v[i].as_str(), s) {
            assert(v.deep_view()[i as int] == s@);
            return true;
        }
        i = i + 1;
    }
    false
}

/// The values of a scope-map entry `group@realm: {"a", "b"}`.
pub open spec fn scope_entry_values(e: Seq<char>) -> Seq<Seq<char>> {
    split_on(trim_end(trim_start(after_first(e, ": "@), '{'), '}'), ", "@).map_values(
        |t: Seq<char>| trim_both(t, '"'),
    )
}

/// The group a scope-map entry belongs to.
pub open spec fn scope_entry_group(e: Seq<char>) -> Seq<char> {
    unqualified(e)
}

/// Every token of `v` with its surrounding quotes removed.
fn unquote_all(v: &Vec<String>) -> (r: Vec<String>)
    ensures
        r.deep_view() == v.deep_view().map_values(|t: Seq<char>| trim_both(t, '"')),
{
    let mut out: Vec<String> = Vec::new();
    let mut i: usize = 0;
    while i < v.len()
        invariant
            i <= v.len(),
            out.deep_view() =~= v.deep_view().subrange(0, i as int).map_values(
                |t: Seq<char>| trim_both(t, '"'),
            ),
        decreases v.len() - i,
    {
        let ghost prev = out.deep_view();
        out.push(trim_char(v[i].as_str(), '"'));
        assert(out.deep_view() =~= prev.push(trim_both(v[i as int]@, '"')));
        i = i + 1;
        assert(v.deep_view().subrange(0, i as int) =~= v.deep_view().subrange(0, i - 1).push(
            v[i - 1]@,
        ));
    }
    assert(v.deep_view().subrange(0, i as int) =~= v.deep_view());
    out
}

pub fn decode_scope_entry(e: &str) -> (r: Vec<String>)
    ensures
        r.deep_view() == scope_entry_values(e@),
{
    let body = suffix_after(e, ": ");
    let body = trim_start_char(body.as_str(), '{');
    let body = trim_end_char(body.as_str(), '}');
    proof {
        reveal_strlit(", ");
    }
    let parts = split_by(body.as_str(), ", ");
    unquote_all(&parts)
}

/// The `:`-separated fields of a claim-map entry
/// `claim:group@realm:delimiter:"values"`.
pub open spec fn claim_fields(e: Seq<char>) -> Seq<Seq<char>> {
    split_on(e, ":"@)
}

/// The entry belongs to `claim` (its first field).
pub open spec fn claim_entry_is_for(e: Seq<char>, claim: Seq<char>) -> bool {
    claim_fields(e).len() > 0 && claim_fields(e)[0] == claim
}

/// The entry maps `claim` for `group` (first field, and second field without
/// its realm).
pub open spec fn claim_entry_matches(e: Seq<char>, claim: Seq<char>, group: Seq<char>) -> bool {
    claim_fields(e).len() >= 2 && claim_fields(e)[0] == claim && unqualified(claim_fields(e)[1])
        == group
}

/// The values a claim-map entry holds: the fourth field (the whole entry when
/// there are fewer fields), unquoted and split on commas.
pub open spec fn claim_entry_values(e: Seq<char>) -> Seq<Seq<char>> {
    let f = claim_fields(e);
    let raw = if f.len() > 3 {
        f[3]
    } else {
        e
    };
    split_on(trim_both(raw, '"'), ","@)
}

/// The join type an entry records: its third field, read as a delimiter.
pub open spec fn claim_entry_join(e: Seq<char>) -> JoinType {
    let f = claim_fields(e);
    if f.len() > 2 {
        JoinType::spec_from_delimiter(f[2])
    } else {
        JoinType::Array
    }
}

pub fn claim_entry_fields(e: &str) -> (r: Vec<String>)
    ensures
        r.deep_view() == claim_fields(e@),
{
    proof {
        reveal_strlit(":");
    }
    split_by(e, ":")
}

pub fn decode_claim_values(e: &str) -> (r: Vec<String>)
    ensures
        r.deep_view() == claim_entry_values(e@),
{
    let fields = claim_entry_fields(e);
    let raw = if fields.len() > 3 {
        trim_char(fields[3].as_str(), '"')
    } else {
        trim_char(e, '"')
    };
    proof {
        reveal_strlit(",");
    }
    split_by(raw.as_str(), ",")
}

pub fn decode_claim_join(e: &str) -> (r: JoinType)
    ensures
        r == claim_entry_join(e@),
{
    let fields = claim_entry_fields(e);
    if fields.len() > 2 {
        JoinType::from_delimiter(fields[2].as_str())
    } else {
        JoinType::Array
    }
}

} // verus!
