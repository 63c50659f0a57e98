//! Why a run stops.
use vstd::prelude::*;
use crate::remote::Kind;

verus! {

/// A name together with every kind that declares it.
#[derive(Debug)]
pub struct NameUse {
    pub name: String,
    pub kinds: Vec<Kind>,
}

/// Every error stops the run; none is retried.
#[derive(Debug)]
pub enum SyncError {
    /// An update names an entity the current snapshot does not hold.
    UnknownEntity { name: String },
    /// An attribute of an entity is present but not a list of strings.
    InvalidAttr { name: String, attr: String },
    /// The entity would be created, but its name belongs to another entity.
    NameInUse { kind: Kind, name: String },
    /// A claim's join type is none of `ssv`, `csv` and `array`.
    InvalidJoinType { name: String, claim: String, join_type: String },
    /// A claim-map entry lacks its group field.
    MalformedClaimEntry { name: String, entry: String },
    /// Names declared more than once across (or within) the kinds.
    DuplicateNames { uses: Vec<NameUse> },
    /// A declared name is not in lower case.
    NotLowercase { key: String },
    /// An OAuth2 client declares a scope-map group, claim, or claim group twice.
    DuplicateKey { client: String },
    /// Two declared entities of one kind share a name.
    RepeatedName { kind: Kind },
    /// The tracking group is missing from the snapshot of groups.
    MissingTrackingGroup,
    /// An image file whose extension names no supported image type.
    UnsupportedImageExtension { extension: String },
    /// An image file path without an extension.
    MissingImageExtension { path: String },
}

/// An error, with its strings as character sequences.
pub enum ErrorView {
    UnknownEntity { name: Seq<char> },
    InvalidAttr { name: Seq<char>, attr: Seq<char> },
    NameInUse { kind: Kind, name: Seq<char> },
    InvalidJoinType { name: Seq<char>, claim: Seq<char>, join_type: Seq<char> },
    MalformedClaimEntry { name: Seq<char>, entry: Seq<char> },
    DuplicateNames { uses: Seq<(Seq<char>, Seq<Kind>)> },
    NotLowercase { key: Seq<char> },
    DuplicateKey { client: Seq<char> },
    RepeatedName { kind: Kind },
    MissingTrackingGroup,
    UnsupportedImageExtension { extension: Seq<char> },
    MissingImageExtension { path: Seq<char> },
}

impl View for SyncError {
    type V = ErrorView;

    open spec fn view(&self) -> ErrorView {
        match self {
            SyncError::UnknownEntity { name } => ErrorView::UnknownEntity { name: name@ },
            SyncError::InvalidAttr { name, attr } => ErrorView::InvalidAttr { name: name@, attr: attr@ },
            SyncError::NameInUse { kind, name } => ErrorView::NameInUse { kind: *kind, name: name@ },
            SyncError::InvalidJoinType { name, claim, join_type } => ErrorView::InvalidJoinType {
                name: name@,
                claim: claim@,
                join_type: join_type@,
            },
            SyncError::MalformedClaimEntry { name, entry } => ErrorView::MalformedClaimEntry {
                name: name@,
                entry: entry@,
            },
            SyncError::DuplicateNames { uses } => ErrorView::DuplicateNames {
                uses: uses@.map_values(|u: NameUse| (u.name@, u.kinds@)),
            },
            SyncError::NotLowercase { key } => ErrorView::NotLowercase { key: key@ },
            SyncError::DuplicateKey { client } => ErrorView::DuplicateKey { client: client@ },
            SyncError::RepeatedName { kind } => ErrorView::RepeatedName { kind: *kind },
            SyncError::MissingTrackingGroup => ErrorView::MissingTrackingGroup,
            SyncError::UnsupportedImageExtension { extension } =>
                ErrorView::UnsupportedImageExtension { extension: extension@ },
            SyncError::MissingImageExtension { path } => ErrorView::MissingImageExtension {
                path: path@,
            },
        }
    }
}

} // verus!
