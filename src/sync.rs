//! Per-entity reconciliation of groups and persons: whether each must be
//! created or deleted, and which of its attributes must be written.
use vstd::prelude::*;
use crate::call::{plan_view, step_view, 
    Call, CallView, join, lemma_join_assoc, lemma_join_empty, lift, opt_seq,
    push_call, push_opt, view_calls, view_opt,
};
use crate::error::{ErrorView, SyncError};
use crate::remote::Kind;
use crate::reconcile::{entity_attr_step, update_entity_attrs};
use crate::remote::{contains_entity, has_entity, Entity};
use crate::state::{Group, Person};
use crate::codec::contains_name;

verus! {

/// Creating the entity would take a name that another entity already had when
/// the run began.
pub open spec fn name_taken(
    present: bool,
    exists: bool,
    name: Seq<char>,
    preexisting: Seq<Seq<char>>,
) -> bool {
    present && !exists && preexisting.contains(name)
}

/// The error refusing to create an entity of `kind` under `name`.
pub open spec fn is_name_in_use(e: SyncError, kind: Kind, name: Seq<char>) -> bool {
    match e {
        SyncError::NameInUse { kind: k, name: n } => k == kind && n@ == name,
        _ => false,
    }
}

/// What existence requires: create and then refresh, delete, or nothing.
pub open spec fn existence_plan(kind: Kind, create: CallView, name: Seq<char>, present: bool, exists: bool) -> Seq<
    CallView,
> {
    if present {
        if exists {
            Seq::empty()
        } else {
            seq![create, CallView::Refresh { kind }]
        }
    } else if exists {
        seq![CallView::DeleteEntity { kind, name }]
    } else {
        Seq::empty()
    }
}

/// Creates a declared group that is missing, or deletes one declared absent.
pub fn sync_group(name: &str, group: &Group, existing: &Vec<Entity>, preexisting: &Vec<String>) -> (r:
    Result<Vec<Call>, SyncError>)
    ensures
        ({
            let exists = has_entity(existing@, name@);
            if name_taken(group.present, exists, name@, preexisting.deep_view()) {
                r is Err && is_name_in_use(r->Err_0, Kind::Group, name@)
            } else {
                r is Ok && view_calls(r->Ok_0@) == existence_plan(
                    Kind::Group,
                    CallView::CreateGroup { name: name@ },
                    name@,
                    group.present,
                    exists,
                )
            }
        }),
{
    let exists = contains_entity(existing, name);
    let mut out: Vec<Call> = Vec::new();
    if group.present {
        if !exists {
            if contains_name(preexisting, name) {
                return Err(SyncError::NameInUse { kind: Kind::Group, name: name.to_owned() });
            }
            push_call(&mut out, Call::CreateGroup { name: name.to_owned() });
            push_call(&mut out, Call::Refresh { kind: Kind::Group });
        }
    } else if exists {
        push_call(&mut out, Call::DeleteEntity { kind: Kind::Group, name: name.to_owned() });
    }
    proof {
        assert(view_calls(out@) =~= existence_plan(
            Kind::Group,
            CallView::CreateGroup { name: name@ },
            name@,
            group.present,
            exists,
        ));
    }
    Ok(out)
}

/// Creates a declared person that is missing, or deletes one declared absent.
pub fn sync_person(name: &str, person: &Person, existing: &Vec<Entity>, preexisting: &Vec<String>) -> (r:
    Result<Vec<Call>, SyncError>)
    ensures
        ({
            let exists = has_entity(existing@, name@);
            if name_taken(person.present, exists, name@, preexisting.deep_view()) {
                r is Err && is_name_in_use(r->Err_0, Kind::Person, name@)
            } else {
                r is Ok && view_calls(r->Ok_0@) == existence_plan(
                    Kind::Person,
                    CallView::CreatePerson { name: name@, display_name: person.display_name@ },
                    name@,
                    person.present,
                    exists,
                )
            }
        }),
{
    let exists = contains_entity(existing, name);
    let mut out: Vec<Call> = Vec::new();
    if person.present {
        if !exists {
            if contains_name(preexisting, name) {
                return Err(SyncError::NameInUse { kind: Kind::Person, name: name.to_owned() });
            }
            push_call(
                &mut out,
                Call::CreatePerson { name: name.to_owned(), display_name: person.display_name.clone() },
            );
            push_call(&mut out, Call::Refresh { kind: Kind::Person });
        }
    } else if exists {
        push_call(&mut out, Call::DeleteEntity { kind: Kind::Person, name: name.to_owned() });
    }
    proof {
        assert(view_calls(out@) =~= existence_plan(
            Kind::Person,
            CallView::CreatePerson { name: name@, display_name: person.display_name@ },
            name@,
            person.present,
            exists,
        ));
    }
    Ok(out)
}

/// A list of attribute names with the values each should hold.
pub open spec fn steps_view(v: Seq<(String, Vec<String>)>) -> Seq<(Seq<char>, Seq<Seq<char>>)> {
    v.map_values(|p: (String, Vec<String>)| (p.0@, p.1.deep_view()))
}

/// Writing each attribute of `steps` in turn, stopping at the first failure.
pub open spec fn attr_fold(
    es: Seq<Entity>,
    kind: Kind,
    name: Seq<char>,
    steps: Seq<(Seq<char>, Seq<Seq<char>>)>,
) -> Result<Seq<CallView>, ErrorView>
    decreases steps.len(),
{
    if steps.len() == 0 {
        Ok(Seq::empty())
    } else {
        join(
            lift(entity_attr_step(es, kind, name, steps[0].0, steps[0].1, false)),
            attr_fold(es, kind, name, steps.drop_first()),
        )
    }
}

/// Makes each attribute of `steps` hold its values, stopping at the first
/// failure.
pub fn update_attrs(kind: Kind, existing: &Vec<Entity>, name: &str, steps: &Vec<(String, Vec<String>)>) -> (r:
    Result<Vec<Call>, SyncError>)
    ensures
        plan_view(r) == attr_fold(existing@, kind, name@, steps_view(steps@)),
{
    let ghost sv = steps_view(steps@);
    let mut out: Vec<Call> = Vec::new();
    let mut i: usize = 0;
    proof {
        assert(sv.subrange(0, sv.len() as int) =~= sv);
        assert(view_calls(out@) =~= Seq::empty());
        lemma_join_empty(attr_fold(existing@, kind, name@, sv));
    }
    while i < steps.len()
        invariant
            i <= steps.len(),
            sv == steps_view(steps@),
            join(Ok(view_calls(out@)), attr_fold(existing@, kind, name@, sv.subrange(i as int, sv.len() as int)))
                == attr_fold(existing@, kind, name@, sv),
        decreases steps.len() - i,
    {
        let ghost t = sv.subrange(i as int, sv.len() as int);
        let ghost before = view_calls(out@);
        assert(t.drop_first() =~= sv.subrange(i + 1, sv.len() as int));
        assert(t[0] == (steps@[i as int].0@, steps@[i as int].1.deep_view()));
        let step = update_entity_attrs(
            kind,
            existing,
            name,
            steps[i].0.as_str(),
            steps[i].1.clone(),
            false,
        );
        match step {
            Err(e) => {
                return Err(e);
            },
            Ok(c) => {
                proof {
                    lemma_join_assoc(
                        Ok(before),
                        Ok(opt_seq(view_opt(c))),
                        attr_fold(existing@, kind, name@, t.drop_first()),
                    );
                }
                push_opt(&mut out, c);
            },
        }
        i = i + 1;
    }
    proof {
        assert(sv.subrange(i as int, sv.len() as int) =~= Seq::<(Seq<char>, Seq<Seq<char>>)>::empty());
        assert(view_calls(out@) + Seq::<CallView>::empty() =~= view_calls(out@));
    }
    Ok(out)
}

/// The attributes of a person, each with the values it should hold.
pub open spec fn person_attr_list(p: Person) -> Seq<(Seq<char>, Seq<Seq<char>>)> {
    seq![
        ("displayname"@, seq![p.display_name@]),
        (
            "legalname"@,
            match p.legal_name {
                Some(x) => seq![x@],
                None => Seq::empty(),
            },
        ),
        (
            "mail"@,
            match p.mail_addresses {
                Some(v) => v.deep_view(),
                None => Seq::empty(),
            },
        ),
    ]
}

/// The attribute writes a person needs: none unless declared present.
pub open spec fn person_attrs_plan(es: Seq<Entity>, name: Seq<char>, p: Person) -> Result<Seq<CallView>, ErrorView> {
    if p.present {
        attr_fold(es, Kind::Person, name, person_attr_list(p))
    } else {
        Ok(Seq::empty())
    }
}

/// Writes the display name, legal name and mail addresses of a present person.
pub fn sync_person_attrs(name: &str, person: &Person, existing: &Vec<Entity>) -> (r: Result<
    Vec<Call>,
    SyncError,
>)
    ensures
        plan_view(r) == person_attrs_plan(existing@, name@, *person),
{
    if !person.present {
        let out: Vec<Call> = Vec::new();
        assert(view_calls(out@) =~= Seq::empty());
        return Ok(out);
    }
    let legal = match &person.legal_name {
        Some(x) => vec![x.clone()],
        None => Vec::new(),
    };
    let mail = match &person.mail_addresses {
        Some(v) => v.clone(),
        None => Vec::new(),
    };
    let steps = vec![
        ("displayname".to_owned(), vec![person.display_name.clone()]),
        ("legalname".to_owned(), legal),
        ("mail".to_owned(), mail),
    ];
    proof {
        assert(steps@[0].1.deep_view() =~= seq![person.display_name@]);
        assert(steps@[1].1.deep_view() =~= person_attr_list(*person)[1].1);
        assert(steps@[2].1.deep_view() =~= person_attr_list(*person)[2].1);
        assert(steps_view(steps@) =~= person_attr_list(*person));
    }
    update_attrs(Kind::Person, existing, name, &steps)
}

/// The member write a group needs: none unless declared present.
pub open spec fn members_plan(es: Seq<Entity>, name: Seq<char>, g: Group) -> Result<Option<CallView>, ErrorView> {
    if g.present {
        entity_attr_step(es, Kind::Group, name, "member"@, g.members.deep_view(), false)
    } else {
        Ok(None)
    }
}

/// Makes the members of a present group exactly the declared ones.
pub fn sync_group_members(name: &str, group: &Group, existing: &Vec<Entity>) -> (r: Result<
    Option<Call>,
    SyncError,
>)
    ensures
        step_view(r) == members_plan(existing@, name@, *group),
{
    if group.present {
        update_entity_attrs(Kind::Group, existing, name, "member", group.members.clone(), false)
    } else {
        Ok(None)
    }
}

} // verus!
