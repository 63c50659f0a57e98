use kanidm_provision::codec::{
    decode_claim_join, decode_claim_values, decode_scope_entry, same_value_set, strip_realm,
    strip_realm_all, JoinType,
};
use kanidm_provision::text::{find_first, prefix_before, split_by, suffix_after, trim_char};

fn strings(v: &[&str]) -> Vec<String> {
    v.iter().map(|s| s.to_string()).collect()
}

#[test]
fn realm_is_stripped_from_member_names() {
    assert_eq!(strip_realm("alice@example.org"), "alice");
    assert_eq!(strip_realm("bob"), "bob");
    assert_eq!(strip_realm("a@b@c"), "a");
    assert_eq!(
        strip_realm_all(&strings(&["alice@example.org", "bob@example.org"])),
        strings(&["alice", "bob"])
    );
}

#[test]
fn qualified_members_compare_equal_to_declared_ones() {
    let current = strip_realm_all(&strings(&["alice@example.org", "bob@example.org"]));
    assert!(same_value_set(&current, &strings(&["alice", "bob"])));
    assert!(same_value_set(&current, &strings(&["bob", "alice"])));
    assert!(!same_value_set(&current, &strings(&["alice"])));
    assert!(!same_value_set(&current, &strings(&["alice", "alice"])));
    assert!(same_value_set(&strings(&[]), &strings(&[])));
}

#[test]
fn join_type_round_trips_through_delimiter_and_literal() {
    for (lit, delim, j) in [
        ("ssv", " ", JoinType::Ssv),
        ("csv", ",", JoinType::Csv),
        ("array", ";", JoinType::Array),
    ] {
        assert_eq!(JoinType::parse(lit), Some(j));
        assert_eq!(j.literal(), lit);
        assert_eq!(j.delimiter().to_string(), delim);
        assert_eq!(JoinType::from_delimiter(&j.delimiter().to_string()), j);
        assert_eq!(JoinType::from_delimiter(delim), j);
    }
    assert_eq!(JoinType::parse("tsv"), None);
    assert_eq!(JoinType::parse("SSV"), None);
    assert_eq!(JoinType::from_delimiter("|"), JoinType::Array);
    assert_eq!(JoinType::from_delimiter(""), JoinType::Array);
}

#[test]
fn scope_map_entry_decodes_to_its_scopes() {
    assert_eq!(
        decode_scope_entry("grafana_users@idm.example.org: {\"email\", \"openid\", \"profile\"}"),
        strings(&["email", "openid", "profile"])
    );
    assert_eq!(decode_scope_entry("g@r: {\"openid\"}"), strings(&["openid"]));
}

#[test]
fn claim_map_entry_decodes_values_and_join_type() {
    let e = "groups:grafana_admins@idm.example.org:,:\"Admin,Editor\"";
    assert_eq!(decode_claim_values(e), strings(&["Admin", "Editor"]));
    assert_eq!(decode_claim_join(e), JoinType::Csv);
    assert_eq!(decode_claim_join("groups:g@r: :\"a\""), JoinType::Ssv);
    assert_eq!(decode_claim_join("groups:g@r:;:\"a\""), JoinType::Array);
    assert_eq!(decode_claim_join("groups"), JoinType::Array);
}

#[test]
fn text_helpers_split_find_and_trim() {
    assert_eq!(split_by("a, b, c", ", "), strings(&["a", "b", "c"]));
    assert_eq!(split_by("", ","), strings(&[""]));
    assert_eq!(split_by("a,,b", ","), strings(&["a", "", "b"]));
    assert_eq!(find_first("abc: d", ": "), 3);
    assert_eq!(find_first("abc", ": "), 3);
    assert_eq!(suffix_after("k: v", ": "), "v");
    assert_eq!(suffix_after("kv", ": "), "kv");
    assert_eq!(prefix_before("x@y", '@'), "x");
    assert_eq!(trim_char("\"\"a\"\"", '"'), "a");
    assert_eq!(trim_char("\"\"\"", '"'), "");
}
