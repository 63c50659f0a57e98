//! The calls the engine asks of the directory service, in the order it wants
//! them made.
use vstd::prelude::*;
use crate::codec::JoinType;
use crate::remote::Kind;
use crate::error::{ErrorView, SyncError};

verus! {

/// Which of the two scope-map attributes of an OAuth2 client.
#[derive(Clone, Copy, Debug, PartialEq, Eq, Structural)]
pub enum MapKind {
    Scope,
    Supplementary,
}

impl MapKind {
    pub open spec fn spec_attr(self) -> Seq<char> {
        match self {
            MapKind::Scope => "oauth2_rs_scope_map"@,
            MapKind::Supplementary => "oauth2_rs_sup_scope_map"@,
        }
    }

    /// The attribute that holds the map's entries.
    pub fn attr(&self) -> (r: &'static str)
        ensures
            r@ == self.spec_attr(),
    {
        match self {
            MapKind::Scope => "oauth2_rs_scope_map",
            MapKind::Supplementary => "oauth2_rs_sup_scope_map",
        }
    }

    pub open spec fn spec_endpoint(self) -> Seq<char> {
        match self {
            MapKind::Scope => "_scopemap"@,
            MapKind::Supplementary => "_sup_scopemap"@,
        }
    }

    /// The path segment under which the service edits the map.
    pub fn endpoint(&self) -> (r: &'static str)
        ensures
            r@ == self.spec_endpoint(),
    {
        match self {
            MapKind::Scope => "_scopemap",
            MapKind::Supplementary => "_sup_scopemap",
        }
    }
}

/// The image formats an OAuth2 client image may have.
#[derive(Clone, Copy, Debug, PartialEq, Eq, Structural)]
pub enum ImageType {
    Png,
    Jpeg,
    Gif,
    Svg,
    Webp,
}

impl ImageType {
    pub open spec fn spec_mime(self) -> Seq<char> {
        match self {
            ImageType::Png => "image/png"@,
            ImageType::Jpeg => "image/jpeg"@,
            ImageType::Gif => "image/gif"@,
            ImageType::Svg => "image/svg+xml"@,
            ImageType::Webp => "image/webp"@,
        }
    }

    /// The media type sent with the image.
    pub fn mime(&self) -> (r: &'static str)
        ensures
            r@ == self.spec_mime(),
    {
        match self {
            ImageType::Png => "image/png",
            ImageType::Jpeg => "image/jpeg",
            ImageType::Gif => "image/gif",
            ImageType::Svg => "image/svg+xml",
            ImageType::Webp => "image/webp",
        }
    }
}

/// One call to the directory service.
#[derive(Debug)]
pub enum Call {
    CreateGroup { name: String },
    CreatePerson { name: String, display_name: String },
    CreateOauth2 {
        name: String,
        public: bool,
        origins: Vec<String>,
        landing: String,
        display_name: String,
    },
    DeleteEntity { kind: Kind, name: String },
    DeleteAttr { kind: Kind, name: String, attr: String },
    AppendAttr { kind: Kind, name: String, attr: String, values: Vec<String> },
    ReplaceAttr { kind: Kind, name: String, attr: String, values: Vec<String> },
    PatchOauth2Attr { name: String, attr: String, values: Vec<String> },
    SetScopeMap { name: String, map: MapKind, group: String, scopes: Vec<String> },
    RemoveScopeMap { name: String, map: MapKind, group: String },
    SetClaimMap { name: String, claim: String, group: String, values: Vec<String> },
    RemoveClaimMap { name: String, claim: String, group: String },
    SetClaimJoin { name: String, claim: String, join: JoinType },
    SetBasicSecret { name: String, secret: String },
    UploadImage { name: String, path: String, image: ImageType },
    /// Read the entities of a kind again before deciding anything further.
    Refresh { kind: Kind },
}

/// A call, with its strings as character sequences.
pub enum CallView {
    CreateGroup { name: Seq<char> },
    CreatePerson { name: Seq<char>, display_name: Seq<char> },
    CreateOauth2 {
        name: Seq<char>,
        public: bool,
        origins: Seq<Seq<char>>,
        landing: Seq<char>,
        display_name: Seq<char>,
    },
    DeleteEntity { kind: Kind, name: Seq<char> },
    DeleteAttr { kind: Kind, name: Seq<char>, attr: Seq<char> },
    AppendAttr { kind: Kind, name: Seq<char>, attr: Seq<char>, values: Seq<Seq<char>> },
    ReplaceAttr { kind: Kind, name: Seq<char>, attr: Seq<char>, values: Seq<Seq<char>> },
    PatchOauth2Attr { name: Seq<char>, attr: Seq<char>, values: Seq<Seq<char>> },
    SetScopeMap { name: Seq<char>, map: MapKind, group: Seq<char>, scopes: Seq<Seq<char>> },
    RemoveScopeMap { name: Seq<char>, map: MapKind, group: Seq<char> },
    SetClaimMap { name: Seq<char>, claim: Seq<char>, group: Seq<char>, values: Seq<Seq<char>> },
    RemoveClaimMap { name: Seq<char>, claim: Seq<char>, group: Seq<char> },
    SetClaimJoin { name: Seq<char>, claim: Seq<char>, join: JoinType },
    SetBasicSecret { name: Seq<char>, secret: Seq<char> },
    UploadImage { name: Seq<char>, path: Seq<char>, image: ImageType },
    Refresh { kind: Kind },
}

impl View for Call {
    type V = CallView;

    open spec fn view(&self) -> CallView {
        match self {
            Call::CreateGroup { name } => CallView::CreateGroup { name: name@ },
            Call::CreatePerson { name, display_name } => CallView::CreatePerson {
                name: name@,
                display_name: display_name@,
            },
            Call::CreateOauth2 { name, public, origins, landing, display_name } =>
                CallView::CreateOauth2 {
                name: name@,
                public: *public,
                origins: origins.deep_view(),
                landing: landing@,
                display_name: display_name@,
            },
            Call::DeleteEntity { kind, name } => CallView::DeleteEntity { kind: *kind, name: name@ },
            Call::DeleteAttr { kind, name, attr } => CallView::DeleteAttr {
                kind: *kind,
                name: name@,
                attr: attr@,
            },
            Call::AppendAttr { kind, name, attr, values } => CallView::AppendAttr {
                kind: *kind,
                name: name@,
                attr: attr@,
                values: values.deep_view(),
            },
            Call::ReplaceAttr { kind, name, attr, values } => CallView::ReplaceAttr {
                kind: *kind,
                name: name@,
                attr: attr@,
                values: values.deep_view(),
            },
            Call::PatchOauth2Attr { name, attr, values } => CallView::PatchOauth2Attr {
                name: name@,
                attr: attr@,
                values: values.deep_view(),
            },
            Call::SetScopeMap { name, map, group, scopes } => CallView::SetScopeMap {
                name: name@,
                map: *map,
                group: group@,
                scopes: scopes.deep_view(),
            },
            Call::RemoveScopeMap { name, map, group } => CallView::RemoveScopeMap {
                name: name@,
                map: *map,
                group: group@,
            },
            Call::SetClaimMap { name, claim, group, values } => CallView::SetClaimMap {
                name: name@,
                claim: claim@,
                group: group@,
                values: values.deep_view(),
            },
            Call::RemoveClaimMap { name, claim, group } => CallView::RemoveClaimMap {
                name: name@,
                claim: claim@,
                group: group@,
            },
            Call::SetClaimJoin { name, claim, join } => CallView::SetClaimJoin {
                name: name@,
                claim: claim@,
                join: *join,
            },
            Call::SetBasicSecret { name, secret } => CallView::SetBasicSecret {
                name: name@,
                secret: secret@,
            },
            Call::UploadImage { name, path, image } => CallView::UploadImage {
                name: name@,
                path: path@,
                image: *image,
            },
            Call::Refresh { kind } => CallView::Refresh { kind: *kind },
        }
    }
}

/// The call changes the service (everything but a refresh).
pub open spec fn is_write(c: CallView) -> bool {
    !(c is Refresh)
}

/// The calls of a plan, viewed.
pub open spec fn view_calls(v: Seq<Call>) -> Seq<CallView> {
    v.map_values(|c: Call| c@)
}

/// An optional call, viewed.
pub open spec fn view_opt(o: Option<Call>) -> Option<CallView> {
    match o {
        Some(c) => Some(c@),
        None => None,
    }
}

/// The plan of one step that fails or yields at most one call.
pub open spec fn lift(step: Result<Option<CallView>, ErrorView>) -> Result<Seq<CallView>, ErrorView> {
    match step {
        Err(e) => Err(e),
        Ok(None) => Ok(Seq::empty()),
        Ok(Some(c)) => Ok(seq![c]),
    }
}

/// Two plans one after the other; a failure of the first ends the run.
pub open spec fn join(a: Result<Seq<CallView>, ErrorView>, b: Result<Seq<CallView>, ErrorView>) -> Result<
    Seq<CallView>,
    ErrorView,
> {
    match a {
        Err(e) => Err(e),
        Ok(x) => match b {
            Err(e) => Err(e),
            Ok(y) => Ok(x + y),
        },
    }
}

/// A step's outcome, viewed.
pub open spec fn step_view(r: Result<Option<Call>, SyncError>) -> Result<Option<CallView>, ErrorView> {
    match r {
        Ok(c) => Ok(view_opt(c)),
        Err(e) => Err(e@),
    }
}

/// A plan's outcome, viewed.
pub open spec fn plan_view(r: Result<Vec<Call>, SyncError>) -> Result<Seq<CallView>, ErrorView> {
    match r {
        Ok(v) => Ok(view_calls(v@)),
        Err(e) => Err(e@),
    }
}

/// Appends a call to a plan.
pub fn push_call(out: &mut Vec<Call>, c: Call)
    ensures
        view_calls(final(out)@) == view_calls(old(out)@).push(c@),
{
    out.push(c);
    assert(view_calls(out@) =~= view_calls(old(out)@).push(c@));
}

/// Appends an optional call to a plan.
pub fn push_opt(out: &mut Vec<Call>, c: Option<Call>)
    ensures
        view_calls(final(out)@) == view_calls(old(out)@) + opt_seq(view_opt(c)),
{
    match c {
        Some(x) => push_call(out, x),
        None => {
            assert(view_calls(out@) =~= view_calls(out@) + Seq::<CallView>::empty());
        },
    }
}

/// Appends a whole plan to another.
pub fn append_calls(out: &mut Vec<Call>, more: Vec<Call>)
    ensures
        view_calls(final(out)@) == view_calls(old(out)@) + view_calls(more@),
{
    let mut more = more;
    let ghost m = more@;
    out.append(&mut more);
    assert(view_calls(out@) =~= view_calls(old(out)@) + view_calls(m));
}

/// The calls of an optional call.
pub open spec fn opt_seq(c: Option<CallView>) -> Seq<CallView> {
    match c {
        Some(x) => seq![x],
        None => Seq::empty(),
    }
}

/// Running plans one after another does not depend on how they are grouped.
pub proof fn lemma_join_assoc(
    a: Result<Seq<CallView>, ErrorView>,
    b: Result<Seq<CallView>, ErrorView>,
    c: Result<Seq<CallView>, ErrorView>,
)
    ensures
        join(a, join(b, c)) == join(join(a, b), c),
{
    if a is Ok && b is Ok && c is Ok {
        assert(a->Ok_0 + (b->Ok_0 + c->Ok_0) =~= (a->Ok_0 + b->Ok_0) + c->Ok_0);
    }
}

/// Joining an empty plan in front changes nothing.
pub proof fn lemma_join_empty(b: Result<Seq<CallView>, ErrorView>)
    ensures
        join(Ok(Seq::empty()), b) == b,
{
    if b is Ok {
        assert(Seq::<CallView>::empty() + b->Ok_0 =~= b->Ok_0);
    }
}

} // verus!
