//! Owner-scoped tooling metadata contributed by one prepared protocol or plugin.
//!
//! Resource and facet identities supplied to a collector are owner-local. Finishing the
//! collector validates them and qualifies them with the owner's identity, so an extension can
//! neither claim a framework identity nor another contributor's resources.

use vstd::prelude::*;

use crate::text::{concat3, is_blank, is_blank_spec, owned, push_char, starts_with, text_eq};

verus! {

// ---------------------------------------------------------------------------------------------
// Identity rules
// ---------------------------------------------------------------------------------------------

/// The owner-local escape of one character: `%` and `/` are percent-encoded.
pub open spec fn escape_char(c: char) -> Seq<char> {
    if c == '%' {
        seq!['%', '2', '5']
    } else if c == '/' {
        seq!['%', '2', 'F']
    } else {
        seq![c]
    }
}

/// The owner-local escape of a text (`%` becomes `%25`, `/` becomes `%2F`).
pub open spec fn escape(s: Seq<char>) -> Seq<char>
    decreases s.len(),
{
    if s.len() == 0 {
        Seq::empty()
    } else {
        escape_char(s[0]) + escape(s.drop_first())
    }
}

/// The owner-qualified identity of an owner-local identity.
pub open spec fn qualify_spec(owner: Seq<char>, local: Seq<char>) -> Seq<char> {
    owner + "/tooling/"@ + escape(local)
}

/// Whether `s` begins with `p`.
pub open spec fn has_prefix(s: Seq<char>, p: Seq<char>) -> bool {
    p.len() <= s.len() && s.take(p.len() as int) == p
}

/// Identities that an extension may not use as owner-local identities.
pub open spec fn reserved_local(id: Seq<char>) -> bool {
    ||| id == "framework"@
    ||| id == "application"@
    ||| has_prefix(id, "component:"@)
    ||| has_prefix(id, "config-binding:"@)
    ||| has_prefix(id, "contribution:"@)
    ||| has_prefix(id, "hook:"@)
    ||| has_prefix(id, "lifecycle:"@)
    ||| has_prefix(id, "plugin:"@)
    ||| has_prefix(id, "plugin-slot:"@)
    ||| has_prefix(id, "protocol:"@)
    ||| has_prefix(id, "provider:"@)
    ||| has_prefix(id, "scope:"@)
    ||| has_prefix(id, "type:"@)
}

/// Whether an owner-local identity is acceptable: not blank and not reserved.
pub open spec fn local_id_ok(id: Seq<char>) -> bool {
    !is_blank_spec(id) && !reserved_local(id)
}

/// The error reported for an unacceptable owner-local identity.
pub open spec fn local_id_error(id: Seq<char>, e: ToolingContributionError) -> bool {
    if is_blank_spec(id) {
        e is EmptyId
    } else {
        e matches ToolingContributionError::ReservedId { id: x } && x@ == id
    }
}

/// After an owner kind prefix: a non-empty namespace, `/`, and a non-empty name.
pub open spec fn owner_rest_ok(rest: Seq<char>) -> bool {
    exists|p: int|
        0 < p && p + 1 < rest.len() && #[trigger] rest[p] == '/' && (forall|q: int|
            0 <= q < p ==> rest[q] != '/') && rest[p + 1] != '/'
}

/// Whether the collector owner is a protocol or plugin identity (`plugin:ns/name` or
/// `protocol:ns/name`).
pub open spec fn valid_owner(owner: Seq<char>) -> bool {
    ||| has_prefix(owner, "plugin:"@) && owner_rest_ok(owner.skip("plugin:"@.len() as int))
    ||| has_prefix(owner, "protocol:"@) && owner_rest_ok(owner.skip("protocol:"@.len() as int))
}

/// Escaping never produces `/`.
pub proof fn lemma_escape_has_no_slash(s: Seq<char>)
    ensures
        forall|i: int| 0 <= i < escape(s).len() ==> escape(s)[i] != '/',
    decreases s.len(),
{
    if s.len() > 0 {
        lemma_escape_has_no_slash(s.drop_first());
        let h = escape_char(s[0]);
        let t = escape(s.drop_first());
        assert forall|i: int| 0 <= i < escape(s).len() implies escape(s)[i] != '/' by {
            if i < h.len() {
                assert(escape(s)[i] == h[i]);
            } else {
                assert(escape(s)[i] == t[i - h.len()]);
            }
        }
    }
}

/// Escaping is injective: distinct owner-local identities have distinct escapes.
pub proof fn lemma_escape_injective(a: Seq<char>, b: Seq<char>)
    requires
        escape(a) == escape(b),
    ensures
        a == b,
    decreases a.len(),
{
    if a.len() == 0 {
        if b.len() > 0 {
            assert(escape(b).len() >= escape_char(b[0]).len());
        }
    } else if b.len() == 0 {
        assert(escape(a).len() >= escape_char(a[0]).len());
    } else {
        let ha = escape_char(a[0]);
        let hb = escape_char(b[0]);
        let e = escape(a);
        assert(e[0] == ha[0]);
        assert(e[0] == hb[0]);
        if ha.len() == 3 && hb.len() == 3 {
            assert(e[2] == ha[2]);
            assert(e[2] == hb[2]);
        }
        assert(a[0] == b[0]);
        assert(escape(a.drop_first()) =~= e.skip(ha.len() as int));
        assert(escape(b.drop_first()) =~= e.skip(hb.len() as int));
        lemma_escape_injective(a.drop_first(), b.drop_first());
        assert(a =~= seq![a[0]] + a.drop_first());
        assert(b =~= seq![b[0]] + b.drop_first());
    }
}

/// Escaping a text extended by one character appends that character's escape.
pub proof fn lemma_escape_push(s: Seq<char>, c: char)
    ensures
        escape(s.push(c)) =~= escape(s) + escape_char(c),
    decreases s.len(),
{
    if s.len() == 0 {
        assert(s.push(c).drop_first() =~= Seq::<char>::empty());
        assert(s.push(c)[0] == c);
        assert(escape(s.push(c)) == escape_char(c) + escape(s.push(c).drop_first()));
        assert(escape(Seq::<char>::empty()) =~= Seq::<char>::empty());
        assert(escape(s) =~= Seq::<char>::empty());
    } else {
        assert(s.push(c).drop_first() =~= s.drop_first().push(c));
        lemma_escape_push(s.drop_first(), c);
        assert(s.push(c)[0] == s[0]);
        assert(escape(s.push(c)) == escape_char(s[0]) + escape(s.drop_first().push(c)));
        assert(escape(s) == escape_char(s[0]) + escape(s.drop_first()));
    }
}

/// Owner qualification is injective in the owner and the owner-local identity together: two
/// qualified identities are equal only when both owners and both local identities are.
pub proof fn law_qualify_injective(o1: Seq<char>, l1: Seq<char>, o2: Seq<char>, l2: Seq<char>)
    requires
        qualify_spec(o1, l1) == qualify_spec(o2, l2),
    ensures
        o1 == o2,
        l1 == l2,
{
    reveal_strlit("/tooling/");
    let q = qualify_spec(o1, l1);
    let e1 = escape(l1);
    let e2 = escape(l2);
    lemma_escape_has_no_slash(l1);
    lemma_escape_has_no_slash(l2);
    assert(q.len() == o1.len() + 9 + e1.len());
    assert(q.len() == o2.len() + 9 + e2.len());
    if e1.len() < e2.len() {
        let i = q.len() - e1.len() - 1;
        assert(q[i] == '/');
        assert(q[i] == e2[i - (o2.len() + 9)]);
    } else if e2.len() < e1.len() {
        let i = q.len() - e2.len() - 1;
        assert(q[i] == '/');
        assert(q[i] == e1[i - (o1.len() + 9)]);
    }
    assert(e1 =~= q.skip(o1.len() + 9int));
    assert(e2 =~= q.skip(o2.len() + 9int));
    assert(o1 =~= q.take(o1.len() as int));
    assert(o2 =~= q.take(o2.len() as int));
    lemma_escape_injective(l1, l2);
}

/// Qualifies an owner-local identity: `{owner}/tooling/{escaped local}`.
pub fn qualify(owner: &str, local: &str) -> (r: String)
    ensures
        r@ == qualify_spec(owner@, local@),
{
    let mut escaped = String::new();
    let n = local.unicode_len();
    let mut i: usize = 0;
    while i < n
        invariant
            n == local@.len(),
            i <= n,
            escaped@ == escape(local@.take(i as int)),
        decreases n - i,
    {
        let c = local.get_char(i);
        if c == '%' {
            push_char(&mut escaped, '%');
            push_char(&mut escaped, '2');
            push_char(&mut escaped, '5');
        } else if c == '/' {
            push_char(&mut escaped, '%');
            push_char(&mut escaped, '2');
            push_char(&mut escaped, 'F');
        } else {
            push_char(&mut escaped, c);
        }
        proof {
            assert(local@.take(i + 1) =~= local@.take(i as int).push(c));
            lemma_escape_push(local@.take(i as int), c);
        }
        i = i + 1;
    }
    proof {
        assert(local@.take(n as int) =~= local@);
    }
    concat3(owner, "/tooling/", escaped.as_str())
}

/// Rejects blank and reserved owner-local identities.
pub fn validate_local_id(id: &str) -> (r: Result<(), ToolingContributionError>)
    ensures
        r is Ok <==> local_id_ok(id@),
        r matches Err(e) ==> local_id_error(id@, e),
{
    if is_blank(id) {
        return Err(ToolingContributionError::EmptyId);
    }
    if text_eq(id, "framework") || text_eq(id, "application") || starts_with(id, "component:")
        || starts_with(id, "config-binding:") || starts_with(id, "contribution:") || starts_with(
        id,
        "hook:",
    ) || starts_with(id, "lifecycle:") || starts_with(id, "plugin:") || starts_with(
        id,
        "plugin-slot:",
    ) || starts_with(id, "protocol:") || starts_with(id, "provider:") || starts_with(id, "scope:")
        || starts_with(id, "type:") {
        return Err(ToolingContributionError::ReservedId { id: owned(id) });
    }
    Ok(())
}

/// Whether the text after an owner kind prefix is `namespace/name` with both parts non-empty.
fn owner_rest_valid(rest: &str) -> (r: bool)
    ensures
        r == owner_rest_ok(rest@),
{
    let n = rest.unicode_len();
    let mut p: usize = 0;
    while p < n && rest.get_char(p) != '/'
        invariant
            n == rest@.len(),
            p <= n,
            forall|q: int| 0 <= q < p ==> rest@[q] != '/',
        decreases n - p,
    {
        p = p + 1;
    }
    let valid = p > 0 && p < n && p + 1 < n && rest.get_char(p + 1) != '/';
    proof {
        if owner_rest_ok(rest@) {
            let w = choose|w: int|
                0 < w && w + 1 < rest@.len() && #[trigger] rest@[w] == '/' && (forall|q: int|
                    0 <= q < w ==> rest@[q] != '/') && rest@[w + 1] != '/';
            if p < w {
                assert(rest@[p as int] == '/');
            } else if w < p {
                assert(rest@[w] != '/');
            }
        }
        if valid {
            assert(rest@[p as int] == '/');
        }
    }
    valid
}

/// Rejects an owner that is not a protocol or plugin identity.
pub fn validate_owner(owner: &str) -> (r: Result<(), ToolingContributionError>)
    ensures
        r is Ok <==> valid_owner(owner@),
        r matches Err(e) ==> (e matches ToolingContributionError::InvalidOwner { id } && id@
            == owner@),
{
    let n = owner.unicode_len();
    let plugin = "plugin:";
    let protocol = "protocol:";
    let pl = plugin.unicode_len();
    let pr = protocol.unicode_len();
    let valid_plugin = starts_with(owner, plugin) && owner_rest_valid(owner.substring_char(pl, n));
    let valid_protocol = starts_with(owner, protocol) && owner_rest_valid(
        owner.substring_char(pr, n),
    );
    proof {
        assert(owner@.subrange(pl as int, n as int) =~= owner@.skip(pl as int));
        assert(owner@.subrange(pr as int, n as int) =~= owner@.skip(pr as int));
    }
    if !(valid_plugin || valid_protocol) {
        return Err(ToolingContributionError::InvalidOwner { id: owned(owner) });
    }
    Ok(())
}

// ---------------------------------------------------------------------------------------------
// Collector
// ---------------------------------------------------------------------------------------------

/// One endpoint in an owner-scoped tooling relationship.
#[derive(Clone, Copy, Debug, Eq, PartialEq)]
pub enum ToolingEndpoint<'a> {
    /// The protocol or plugin that owns this collector.
    Owner,
    /// A resource declared in this collector, addressed by its owner-local identity.
    Resource(&'a str),
}

impl<'a> View for ToolingEndpoint<'a> {
    type V = Option<Seq<char>>;

    open spec fn view(&self) -> Option<Seq<char>> {
        match self {
            ToolingEndpoint::Owner => None,
            ToolingEndpoint::Resource(id) => Some(id@),
        }
    }
}

/// Relationship semantics available to protocol and plugin tooling extensions.
#[derive(Clone, Copy, Debug, Eq, PartialEq, Structural)]
pub enum ToolingRelationshipKind {
    /// The source contains the target.
    Contains,
    /// The source depends on the target.
    DependsOn,
    /// The source must precede the target.
    OrdersBefore,
    /// The source must follow the target.
    OrdersAfter,
}

/// A structural error in one owner-scoped tooling contribution set.
#[derive(Clone, Debug, Eq, PartialEq)]
pub enum ToolingContributionError {
    /// A resource, facet, or relationship endpoint has no owner-local identity.
    EmptyId,
    /// An extension attempted to use a framework/core identity as an owner-local identity.
    ReservedId { id: String },
    /// The collector owner is not a protocol or plugin resource identity.
    InvalidOwner { id: String },
    /// A structurally valid protocol or plugin owner was not projected.
    UnknownOwner { id: String },
    /// A contributed resource has no display name.
    EmptyResourceName { id: String },
    /// A contributed facet has no positive schema version.
    InvalidFacetVersion { id: String },
    /// One collector declared the same owner-local resource more than once.
    DuplicateResource { id: String },
    /// One collector declared the same fully qualified facet more than once.
    DuplicateFacet { id: String },
    /// One collector declared the same relationship more than once.
    DuplicateRelationship { from: String, to: String },
    /// A relationship, facet or display refers to an undeclared owner-local resource.
    UnknownEndpoint { id: String },
    /// A supported extension relationship uses endpoints incompatible with its semantics.
    InvalidRelationshipEndpoints,
    /// A protocol owner declared no display metadata for itself.
    MissingProtocolDisplay { id: String },
}

/// The human-readable message of a contribution error.
pub open spec fn contribution_error_text(e: ToolingContributionError) -> Seq<char> {
    match e {
        ToolingContributionError::EmptyId => "tooling contribution contains an empty owner-local identity"@,
        ToolingContributionError::ReservedId { id } => "tooling contribution identity '"@ + id@
            + "' is reserved by the framework"@,
        ToolingContributionError::InvalidOwner { id } => "tooling contribution owner '"@ + id@
            + "' is not a protocol or plugin identity"@,
        ToolingContributionError::UnknownOwner { id } => "tooling contribution owner '"@ + id@
            + "' does not exist in the prepared projection"@,
        ToolingContributionError::EmptyResourceName { id } => "tooling resource '"@ + id@
            + "' has no name"@,
        ToolingContributionError::InvalidFacetVersion { id } => "tooling facet '"@ + id@
            + "' has schema version zero"@,
        ToolingContributionError::DuplicateResource { id } => "tooling resource '"@ + id@
            + "' is declared more than once"@,
        ToolingContributionError::DuplicateFacet { id } => "tooling facet '"@ + id@
            + "' is declared more than once"@,
        ToolingContributionError::DuplicateRelationship { from, to } =>
            "tooling relationship from '"@ + from@ + "' to '"@ + to@ + "' is declared more than once"@,
        ToolingContributionError::UnknownEndpoint { id } =>
            "tooling contribution refers to undeclared owner-local resource '"@ + id@ + "'"@,
        ToolingContributionError::InvalidRelationshipEndpoints =>
            "tooling contribution relationship has invalid owner-local endpoints"@,
        ToolingContributionError::MissingProtocolDisplay { id } => "tooling protocol '"@ + id@
            + "' declares no display metadata"@,
    }
}

impl ToolingContributionError {
    /// The human-readable message of this error.
    pub fn message(&self) -> (r: String)
        ensures
            r@ == contribution_error_text(*self),
    {
        let s = match self {
            ToolingContributionError::EmptyId => owned(
                "tooling contribution contains an empty owner-local identity",
            ),
            ToolingContributionError::ReservedId { id } => concat3(
                "tooling contribution identity '",
                id.as_str(),
                "' is reserved by the framework",
            ),
            ToolingContributionError::InvalidOwner { id } => concat3(
                "tooling contribution owner '",
                id.as_str(),
                "' is not a protocol or plugin identity",
            ),
            ToolingContributionError::UnknownOwner { id } => concat3(
                "tooling contribution owner '",
                id.as_str(),
                "' does not exist in the prepared projection",
            ),
            ToolingContributionError::EmptyResourceName { id } => concat3(
                "tooling resource '",
                id.as_str(),
                "' has no name",
            ),
            ToolingContributionError::InvalidFacetVersion { id } => concat3(
                "tooling facet '",
                id.as_str(),
                "' has schema version zero",
            ),
            ToolingContributionError::DuplicateResource { id } => concat3(
                "tooling resource '",
                id.as_str(),
                "' is declared more than once",
            ),
            ToolingContributionError::DuplicateFacet { id } => concat3(
                "tooling facet '",
                id.as_str(),
                "' is declared more than once",
            ),
            ToolingContributionError::DuplicateRelationship { from, to } => {
                let head = concat3("tooling relationship from '", from.as_str(), "' to '");
                concat3(head.as_str(), to.as_str(), "' is declared more than once")
            },
            ToolingContributionError::UnknownEndpoint { id } => concat3(
                "tooling contribution refers to undeclared owner-local resource '",
                id.as_str(),
                "'",
            ),
            ToolingContributionError::InvalidRelationshipEndpoints => owned(
                "tooling contribution relationship has invalid owner-local endpoints",
            ),
            ToolingContributionError::MissingProtocolDisplay { id } => concat3(
                "tooling protocol '",
                id.as_str(),
                "' declares no display metadata",
            ),
        };
        proof {
            reveal_strlit("tooling contribution contains an empty owner-local identity");
            reveal_strlit("tooling contribution identity '");
            reveal_strlit("tooling contribution owner '");
            reveal_strlit("tooling resource '");
            reveal_strlit("tooling facet '");
            reveal_strlit("tooling relationship from '");
            reveal_strlit("tooling contribution refers to undeclared owner-local resource '");
            reveal_strlit("tooling contribution relationship has invalid owner-local endpoints");
            reveal_strlit("tooling protocol '");
        }
        s
    }
}


/// Owner-local display metadata for a protocol, plugin or contributed resource.
#[derive(Clone, Debug, Default, Eq, PartialEq)]
pub struct ResourceDisplay {
    /// A short human-readable label.
    pub label: Option<String>,
    /// A one-sentence summary.
    pub summary: Option<String>,
}

/// The text of an optional string.
pub open spec fn opt_text(o: Option<String>) -> Option<Seq<char>> {
    match o {
        Some(s) => Some(s@),
        None => None,
    }
}

impl View for ResourceDisplay {
    type V = (Option<Seq<char>>, Option<Seq<char>>);

    open spec fn view(&self) -> (Option<Seq<char>>, Option<Seq<char>>) {
        (opt_text(self.label), opt_text(self.summary))
    }
}

fn copy_opt(o: &Option<String>) -> (r: Option<String>)
    ensures
        opt_text(r) == opt_text(*o),
{
    match o {
        Some(s) => Some(owned(s.as_str())),
        None => None,
    }
}

impl ResourceDisplay {
    /// An owned copy of this display metadata.
    pub fn copied(&self) -> (r: Self)
        ensures
            r@ == self@,
    {
        ResourceDisplay { label: copy_opt(&self.label), summary: copy_opt(&self.summary) }
    }
}

/// An opaque owner-local facet: a positive schema version and its JSON text.
#[derive(Clone, Debug, Eq, PartialEq)]
pub struct Facet {
    pub schema_version: u16,
    pub value: String,
}

impl Facet {
    /// An owned copy of this facet.
    pub fn copied(&self) -> (r: Self)
        ensures
            r.schema_version == self.schema_version,
            r.value@ == self.value@,
    {
        Facet { schema_version: self.schema_version, value: owned(self.value.as_str()) }
    }
}

/// Scalar labels as `(name, value)` pairs.
pub open spec fn label_views(l: Seq<(String, String)>) -> Seq<(Seq<char>, Seq<char>)> {
    l.map_values(|p: (String, String)| (p.0@, p.1@))
}

/// An owned copy of scalar labels.
pub fn copy_labels(l: &Vec<(String, String)>) -> (r: Vec<(String, String)>)
    ensures
        label_views(r@) == label_views(l@),
{
    let mut r: Vec<(String, String)> = Vec::new();
    let mut i: usize = 0;
    while i < l.len()
        invariant
            i <= l@.len(),
            r@.len() == i,
            label_views(r@) == label_views(l@).take(i as int),
        decreases l@.len() - i,
    {
        let pair = (owned(l[i].0.as_str()), owned(l[i].1.as_str()));
        let ghost gp = pair;
        let ghost old_r = r@;
        r.push(pair);
        proof {
            assert(r@ == old_r.push(gp));
            assert forall|k: int| 0 <= k < i + 1 implies #[trigger] label_views(r@)[k] == label_views(l@).take(i + 1)[k] by {
                if k < i {
                    assert(r@[k] == old_r[k]);
                    assert(label_views(old_r)[k] == label_views(l@).take(i as int)[k]);
                }
            }
            assert(label_views(r@) =~= label_views(l@).take(i + 1));
        }
        i = i + 1;
    }
    proof {
        assert(label_views(l@).take(l@.len() as int) =~= label_views(l@));
    }
    r
}

/// Whether two label lists are equal pair for pair.
pub fn labels_equal(a: &Vec<(String, String)>, b: &Vec<(String, String)>) -> (r: bool)
    ensures
        r == (label_views(a@) == label_views(b@)),
{
    if a.len() != b.len() {
        proof {
            assert(label_views(a@).len() != label_views(b@).len());
        }
        return false;
    }
    let mut i: usize = 0;
    while i < a.len()
        invariant
            a@.len() == b@.len(),
            i <= a@.len(),
            label_views(a@).take(i as int) == label_views(b@).take(i as int),
        decreases a@.len() - i,
    {
        if !text_eq(a[i].0.as_str(), b[i].0.as_str()) || !text_eq(a[i].1.as_str(), b[i].1.as_str()) {
            proof {
                assert(label_views(a@)[i as int] != label_views(b@)[i as int]);
            }
            return false;
        }
        proof {
            assert(label_views(a@).take(i + 1) =~= label_views(b@).take(i + 1));
        }
        i = i + 1;
    }
    proof {
        assert(label_views(a@).take(a@.len() as int) =~= label_views(a@));
        assert(label_views(b@).take(b@.len() as int) =~= label_views(b@));
    }
    true
}

/// One declared owner-local resource.
pub struct ResourceSpec {
    pub id: Seq<char>,
    pub name: Seq<char>,
    pub labels: Seq<(Seq<char>, Seq<char>)>,
}

/// One declared relationship; `None` endpoints stand for the owner.
pub struct RelationshipSpec {
    pub kind: ToolingRelationshipKind,
    pub from: Option<Seq<char>>,
    pub to: Option<Seq<char>>,
    pub labels: Seq<(Seq<char>, Seq<char>)>,
}

/// One declared facet; a `None` resource attaches it to the owner.
pub struct FacetSpec {
    pub resource: Option<Seq<char>>,
    pub id: Seq<char>,
    pub version: u16,
    pub value: Seq<char>,
}

/// Everything one collector has been given.
pub struct ContributionsView {
    pub owner: Seq<char>,
    pub resources: Seq<ResourceSpec>,
    pub relationships: Seq<RelationshipSpec>,
    pub facets: Seq<FacetSpec>,
    pub display: Option<(Option<Seq<char>>, Option<Seq<char>>)>,
    pub resource_displays: Seq<(Seq<char>, (Option<Seq<char>>, Option<Seq<char>>))>,
}

struct PendingResource {
    id: String,
    name: String,
    labels: Vec<(String, String)>,
}

enum PendingEndpoint {
    Owner,
    Resource(String),
}

impl PendingEndpoint {
    closed spec fn view(&self) -> Option<Seq<char>> {
        match self {
            PendingEndpoint::Owner => None,
            PendingEndpoint::Resource(id) => Some(id@),
        }
    }

    /// The qualified identity this endpoint stands for.
    fn qualify(&self, owner: &str) -> (r: String)
        ensures
            r@ == endpoint_qualified(owner@, self.view()),
    {
        match self {
            PendingEndpoint::Owner => owned(owner),
            PendingEndpoint::Resource(id) => qualify(owner, id.as_str()),
        }
    }
}

struct PendingRelationship {
    kind: ToolingRelationshipKind,
    from: PendingEndpoint,
    to: PendingEndpoint,
    labels: Vec<(String, String)>,
}

struct PendingFacet {
    resource: Option<String>,
    id: String,
    facet: Facet,
}

/// Generic, protocol-neutral metadata contributed by one prepared protocol or plugin.
pub struct ToolingContributions {
    owner: String,
    resources: Vec<PendingResource>,
    relationships: Vec<PendingRelationship>,
    facets: Vec<PendingFacet>,
    display: Option<ResourceDisplay>,
    resource_displays: Vec<(String, ResourceDisplay)>,
}

impl View for ToolingContributions {
    type V = ContributionsView;

    closed spec fn view(&self) -> ContributionsView {
        ContributionsView {
            owner: self.owner@,
            resources: self.resources@.map_values(
                |r: PendingResource|
                    ResourceSpec { id: r.id@, name: r.name@, labels: label_views(r.labels@) },
            ),
            relationships: self.relationships@.map_values(
                |r: PendingRelationship|
                    RelationshipSpec {
                        kind: r.kind,
                        from: r.from.view(),
                        to: r.to.view(),
                        labels: label_views(r.labels@),
                    },
            ),
            facets: self.facets@.map_values(
                |f: PendingFacet|
                    FacetSpec {
                        resource: opt_text(f.resource),
                        id: f.id@,
                        version: f.facet.schema_version,
                        value: f.facet.value@,
                    },
            ),
            display: match self.display {
                Some(d) => Some(d@),
                None => None,
            },
            resource_displays: self.resource_displays@.map_values(
                |p: (String, ResourceDisplay)| (p.0@, p.1@),
            ),
        }
    }
}

// ---------------------------------------------------------------------------------------------
// What finishing a collector checks
// ---------------------------------------------------------------------------------------------

/// The qualified identity of an endpoint: the owner itself or a qualified resource.
pub open spec fn endpoint_qualified(owner: Seq<char>, ep: Option<Seq<char>>) -> Seq<char> {
    match ep {
        None => owner,
        Some(id) => qualify_spec(owner, id),
    }
}

/// The qualified identity a facet is attached to.
pub open spec fn facet_target(owner: Seq<char>, f: FacetSpec) -> Seq<char> {
    match f.resource {
        None => owner,
        Some(r) => qualify_spec(owner, r),
    }
}

/// The fully qualified identity of a facet.
pub open spec fn facet_qualified(owner: Seq<char>, f: FacetSpec) -> Seq<char> {
    qualify_spec(facet_target(owner, f), f.id)
}

/// Whether the collector declares a resource with owner-local identity `id`.
pub open spec fn declared(c: ContributionsView, id: Seq<char>) -> bool {
    exists|i: int| 0 <= i < c.resources.len() && #[trigger] c.resources[i].id == id
}

pub open spec fn resource_ok(c: ContributionsView, k: int) -> bool {
    &&& local_id_ok(c.resources[k].id)
    &&& !is_blank_spec(c.resources[k].name)
    &&& forall|i: int| 0 <= i < k ==> #[trigger] c.resources[i].id != c.resources[k].id
}

pub open spec fn resource_fault(c: ContributionsView, k: int, e: ToolingContributionError) -> bool {
    let id = c.resources[k].id;
    if !local_id_ok(id) {
        local_id_error(id, e)
    } else if is_blank_spec(c.resources[k].name) {
        e matches ToolingContributionError::EmptyResourceName { id: x } && x@ == id
    } else {
        e matches ToolingContributionError::DuplicateResource { id: x } && x@ == id
    }
}

pub open spec fn endpoint_ok(c: ContributionsView, ep: Option<Seq<char>>) -> bool {
    match ep {
        None => true,
        Some(id) => local_id_ok(id) && declared(c, id),
    }
}

pub open spec fn endpoint_fault(ep: Option<Seq<char>>, e: ToolingContributionError) -> bool {
    match ep {
        None => false,
        Some(id) => if !local_id_ok(id) {
            local_id_error(id, e)
        } else {
            e matches ToolingContributionError::UnknownEndpoint { id: x } && x@ == id
        },
    }
}

/// Which endpoint shapes a relationship kind admits: `Contains` needs a resource target, the
/// dependency and ordering kinds need resources at both ends.
pub open spec fn shape_ok(kind: ToolingRelationshipKind, from: Option<Seq<char>>, to: Option<Seq<char>>) -> bool {
    match kind {
        ToolingRelationshipKind::Contains => to is Some,
        _ => from is Some && to is Some,
    }
}

pub open spec fn same_relationship(c: ContributionsView, i: int, k: int) -> bool {
    let a = c.relationships[i];
    let b = c.relationships[k];
    &&& a.kind == b.kind
    &&& endpoint_qualified(c.owner, a.from) == endpoint_qualified(c.owner, b.from)
    &&& endpoint_qualified(c.owner, a.to) == endpoint_qualified(c.owner, b.to)
    &&& a.labels == b.labels
}

pub open spec fn relationship_ok(c: ContributionsView, k: int) -> bool {
    let r = c.relationships[k];
    &&& endpoint_ok(c, r.from)
    &&& endpoint_ok(c, r.to)
    &&& shape_ok(r.kind, r.from, r.to)
    &&& forall|i: int| 0 <= i < k ==> !#[trigger] same_relationship(c, i, k)
}

pub open spec fn relationship_fault(c: ContributionsView, k: int, e: ToolingContributionError) -> bool {
    let r = c.relationships[k];
    if !endpoint_ok(c, r.from) {
        endpoint_fault(r.from, e)
    } else if !endpoint_ok(c, r.to) {
        endpoint_fault(r.to, e)
    } else if !shape_ok(r.kind, r.from, r.to) {
        e is InvalidRelationshipEndpoints
    } else {
        e matches ToolingContributionError::DuplicateRelationship { from, to } && from@
            == endpoint_qualified(c.owner, r.from) && to@ == endpoint_qualified(c.owner, r.to)
    }
}

pub open spec fn facet_ok(c: ContributionsView, k: int) -> bool {
    let f = c.facets[k];
    &&& local_id_ok(f.id)
    &&& f.version != 0
    &&& (f.resource matches Some(r) ==> local_id_ok(r) && declared(c, r))
    &&& forall|i: int| 0 <= i < k ==> facet_qualified(c.owner, #[trigger] c.facets[i]) != facet_qualified(c.owner, f)
}

pub open spec fn facet_fault(c: ContributionsView, k: int, e: ToolingContributionError) -> bool {
    let f = c.facets[k];
    if !local_id_ok(f.id) {
        local_id_error(f.id, e)
    } else if f.version == 0 {
        e matches ToolingContributionError::InvalidFacetVersion { id: x } && x@ == f.id
    } else if f.resource matches Some(r) && !local_id_ok(r) {
        local_id_error(f.resource.unwrap(), e)
    } else if f.resource matches Some(r) && !declared(c, r) {
        e matches ToolingContributionError::UnknownEndpoint { id: x } && Some(x@) == f.resource
    } else {
        e matches ToolingContributionError::DuplicateFacet { id: x } && x@ == facet_qualified(c.owner, f)
    }
}

pub open spec fn display_ok(c: ContributionsView, k: int) -> bool {
    local_id_ok(c.resource_displays[k].0) && declared(c, c.resource_displays[k].0)
}

pub open spec fn display_fault(c: ContributionsView, k: int, e: ToolingContributionError) -> bool {
    let id = c.resource_displays[k].0;
    if !local_id_ok(id) {
        local_id_error(id, e)
    } else {
        e matches ToolingContributionError::UnknownEndpoint { id: x } && x@ == id
    }
}

/// A protocol owner must describe itself; a plugin owner may omit its display.
pub open spec fn owner_display_ok(c: ContributionsView) -> bool {
    !(has_prefix(c.owner, "protocol:"@) && c.display is None)
}

pub open spec fn all_resources_ok(c: ContributionsView) -> bool {
    forall|k: int| 0 <= k < c.resources.len() ==> #[trigger] resource_ok(c, k)
}

pub open spec fn all_relationships_ok(c: ContributionsView) -> bool {
    forall|k: int| 0 <= k < c.relationships.len() ==> #[trigger] relationship_ok(c, k)
}

pub open spec fn all_facets_ok(c: ContributionsView) -> bool {
    forall|k: int| 0 <= k < c.facets.len() ==> #[trigger] facet_ok(c, k)
}

pub open spec fn all_displays_ok(c: ContributionsView) -> bool {
    forall|k: int| 0 <= k < c.resource_displays.len() ==> #[trigger] display_ok(c, k)
}

/// Whether finishing the collector succeeds.
pub open spec fn contributions_valid(c: ContributionsView) -> bool {
    &&& valid_owner(c.owner)
    &&& all_resources_ok(c)
    &&& all_relationships_ok(c)
    &&& all_facets_ok(c)
    &&& all_displays_ok(c)
    &&& owner_display_ok(c)
}

/// `e` is the error finishing reports: the checks run in the order owner, resources,
/// relationships, facets, resource displays, owner display, each reporting its first violation.
pub open spec fn first_contribution_fault(c: ContributionsView, e: ToolingContributionError) -> bool {
    ||| !valid_owner(c.owner) && (e matches ToolingContributionError::InvalidOwner { id } && id@
        == c.owner)
    ||| valid_owner(c.owner) && exists|k: int|
        0 <= k < c.resources.len() && (forall|i: int| 0 <= i < k ==> #[trigger] resource_ok(c, i))
            && !resource_ok(c, k) && resource_fault(c, k, e)
    ||| valid_owner(c.owner) && all_resources_ok(c) && exists|k: int|
        0 <= k < c.relationships.len() && (forall|i: int|
            0 <= i < k ==> #[trigger] relationship_ok(c, i)) && !relationship_ok(c, k)
            && relationship_fault(c, k, e)
    ||| valid_owner(c.owner) && all_resources_ok(c) && all_relationships_ok(c) && exists|k: int|
        0 <= k < c.facets.len() && (forall|i: int| 0 <= i < k ==> #[trigger] facet_ok(c, i))
            && !facet_ok(c, k) && facet_fault(c, k, e)
    ||| valid_owner(c.owner) && all_resources_ok(c) && all_relationships_ok(c) && all_facets_ok(c)
        && exists|k: int|
        0 <= k < c.resource_displays.len() && (forall|i: int|
            0 <= i < k ==> #[trigger] display_ok(c, i)) && !display_ok(c, k) && display_fault(
            c,
            k,
            e,
        )
    ||| valid_owner(c.owner) && all_resources_ok(c) && all_relationships_ok(c) && all_facets_ok(c)
        && all_displays_ok(c) && !owner_display_ok(c) && (
    e matches ToolingContributionError::MissingProtocolDisplay { id } && id@ == c.owner)
}

// ---------------------------------------------------------------------------------------------
// The validated set
// ---------------------------------------------------------------------------------------------

/// A contributed resource with its qualified identity.
pub struct ContributedResource {
    pub id: String,
    pub name: String,
    /// The provenance owner: the collector's owner.
    pub owner: String,
    /// The provenance origin: always `tooling-contribution`.
    pub origin: String,
    pub labels: Vec<(String, String)>,
}

/// A contributed relationship between qualified identities.
pub struct ContributedRelationship {
    pub kind: ToolingRelationshipKind,
    pub from: String,
    pub to: String,
    pub labels: Vec<(String, String)>,
}

/// A contributed facet: its qualified target, its fully qualified identity and its content.
pub struct ContributedFacet {
    pub target: String,
    pub id: String,
    pub facet: Facet,
}

/// Validated owner-qualified resources, relationships, facets and displays ready for
/// projection, each list in declaration order.
pub struct ToolingContributionSet {
    pub owner: String,
    pub owner_display: Option<ResourceDisplay>,
    pub resources: Vec<ContributedResource>,
    pub relationships: Vec<ContributedRelationship>,
    pub facets: Vec<ContributedFacet>,
    /// Display metadata for contributed resources, keyed by qualified resource identity.
    pub resource_displays: Vec<(String, ResourceDisplay)>,
}

pub open spec fn resource_out(owner: Seq<char>, r: ResourceSpec) -> (Seq<char>, Seq<char>, Seq<(Seq<char>, Seq<char>)>) {
    (qualify_spec(owner, r.id), r.name, r.labels)
}

pub open spec fn resource_views(v: Seq<ContributedResource>) -> Seq<(Seq<char>, Seq<char>, Seq<(Seq<char>, Seq<char>)>)> {
    v.map_values(|r: ContributedResource| (r.id@, r.name@, label_views(r.labels@)))
}

pub open spec fn relationship_out(owner: Seq<char>, r: RelationshipSpec) -> (ToolingRelationshipKind, Seq<char>, Seq<char>, Seq<(Seq<char>, Seq<char>)>) {
    (r.kind, endpoint_qualified(owner, r.from), endpoint_qualified(owner, r.to), r.labels)
}

pub open spec fn relationship_views(v: Seq<ContributedRelationship>) -> Seq<(ToolingRelationshipKind, Seq<char>, Seq<char>, Seq<(Seq<char>, Seq<char>)>)> {
    v.map_values(|r: ContributedRelationship| (r.kind, r.from@, r.to@, label_views(r.labels@)))
}

pub open spec fn facet_out(owner: Seq<char>, f: FacetSpec) -> (Seq<char>, Seq<char>, u16, Seq<char>) {
    (facet_target(owner, f), facet_qualified(owner, f), f.version, f.value)
}

pub open spec fn facet_views(v: Seq<ContributedFacet>) -> Seq<(Seq<char>, Seq<char>, u16, Seq<char>)> {
    v.map_values(|f: ContributedFacet| (f.target@, f.id@, f.facet.schema_version, f.facet.value@))
}

pub open spec fn display_views(v: Seq<(String, ResourceDisplay)>) -> Seq<(Seq<char>, (Option<Seq<char>>, Option<Seq<char>>))> {
    v.map_values(|p: (String, ResourceDisplay)| (p.0@, p.1@))
}

/// The set that finishing a valid collector produces.
pub open spec fn set_matches(c: ContributionsView, s: ToolingContributionSet) -> bool {
    &&& s.owner@ == c.owner
    &&& (match s.owner_display {
        Some(d) => c.display == Some(d@),
        None => c.display is None,
    })
    &&& resource_views(s.resources@) == c.resources.map_values(|r: ResourceSpec| resource_out(c.owner, r))
    &&& forall|i: int| 0 <= i < s.resources@.len() ==> (#[trigger] s.resources@[i]).owner@ == c.owner
        && s.resources@[i].origin@ == "tooling-contribution"@
    &&& relationship_views(s.relationships@) == c.relationships.map_values(|r: RelationshipSpec| relationship_out(c.owner, r))
    &&& facet_views(s.facets@) == c.facets.map_values(|f: FacetSpec| facet_out(c.owner, f))
    &&& display_views(s.resource_displays@) == c.resource_displays.map_values(
        |p: (Seq<char>, (Option<Seq<char>>, Option<Seq<char>>))| (qualify_spec(c.owner, p.0), p.1),
    )
}


impl ToolingContributions {
    /// Creates an empty collector for `owner` (a `plugin:` or `protocol:` identity).
    pub fn new(owner: String) -> (r: Self)
        ensures
            r@.owner == owner@,
            r@.resources.len() == 0,
            r@.relationships.len() == 0,
            r@.facets.len() == 0,
            r@.display is None,
            r@.resource_displays.len() == 0,
    {
        ToolingContributions {
            owner,
            resources: Vec::new(),
            relationships: Vec::new(),
            facets: Vec::new(),
            display: None,
            resource_displays: Vec::new(),
        }
    }

    /// Declares an owner-local contribution resource without scalar labels.
    pub fn resource(&mut self, id: &str, name: &str)
        ensures
            final(self)@ == (ContributionsView {
                resources: old(self)@.resources.push(
                    ResourceSpec { id: id@, name: name@, labels: Seq::empty() },
                ),
                ..old(self)@
            }),
    {
        self.resource_with_labels(id, name, Vec::new());
        proof {
            assert(label_views(Seq::<(String, String)>::empty()) =~= Seq::empty());
        }
    }

    /// Declares an owner-local contribution resource with scalar labels.
    pub fn resource_with_labels(&mut self, id: &str, name: &str, labels: Vec<(String, String)>)
        ensures
            final(self)@ == (ContributionsView {
                resources: old(self)@.resources.push(
                    ResourceSpec { id: id@, name: name@, labels: label_views(labels@) },
                ),
                ..old(self)@
            }),
    {
        self.resources.push(PendingResource { id: owned(id), name: owned(name), labels });
        proof {
            assert(self@.resources =~= old(self)@.resources.push(
                ResourceSpec { id: id@, name: name@, labels: label_views(labels@) },
            ));
        }
    }

    /// Declares a relationship whose endpoints are this owner or owner-local resources.
    pub fn relationship(
        &mut self,
        kind: ToolingRelationshipKind,
        from: ToolingEndpoint<'_>,
        to: ToolingEndpoint<'_>,
    )
        ensures
            final(self)@ == (ContributionsView {
                relationships: old(self)@.relationships.push(
                    RelationshipSpec { kind, from: from@, to: to@, labels: Seq::empty() },
                ),
                ..old(self)@
            }),
    {
        self.relationship_with_labels(kind, from, to, Vec::new());
        proof {
            assert(label_views(Seq::<(String, String)>::empty()) =~= Seq::empty());
        }
    }

    /// Declares a relationship with scalar labels.
    pub fn relationship_with_labels(
        &mut self,
        kind: ToolingRelationshipKind,
        from: ToolingEndpoint<'_>,
        to: ToolingEndpoint<'_>,
        labels: Vec<(String, String)>,
    )
        ensures
            final(self)@ == (ContributionsView {
                relationships: old(self)@.relationships.push(
                    RelationshipSpec { kind, from: from@, to: to@, labels: label_views(labels@) },
                ),
                ..old(self)@
            }),
    {
        let from = match from {
            ToolingEndpoint::Owner => PendingEndpoint::Owner,
            ToolingEndpoint::Resource(id) => PendingEndpoint::Resource(owned(id)),
        };
        let to = match to {
            ToolingEndpoint::Owner => PendingEndpoint::Owner,
            ToolingEndpoint::Resource(id) => PendingEndpoint::Resource(owned(id)),
        };
        self.relationships.push(PendingRelationship { kind, from, to, labels });
        proof {
            assert(self@.relationships =~= old(self)@.relationships.push(
                RelationshipSpec { kind, from: from@, to: to@, labels: label_views(labels@) },
            ));
        }
    }

    /// Attaches an owner-local opaque facet (JSON text) to the protocol or plugin itself.
    pub fn facet(&mut self, id: &str, schema_version: u16, value: &str)
        ensures
            final(self)@ == (ContributionsView {
                facets: old(self)@.facets.push(
                    FacetSpec { resource: None, id: id@, version: schema_version, value: value@ },
                ),
                ..old(self)@
            }),
    {
        self.facets.push(
            PendingFacet {
                resource: None,
                id: owned(id),
                facet: Facet { schema_version, value: owned(value) },
            },
        );
        proof {
            assert(self@.facets =~= old(self)@.facets.push(
                FacetSpec { resource: None, id: id@, version: schema_version, value: value@ },
            ));
        }
    }

    /// Attaches an owner-local opaque facet (JSON text) to a resource in this collector.
    pub fn resource_facet(&mut self, resource: &str, id: &str, schema_version: u16, value: &str)
        ensures
            final(self)@ == (ContributionsView {
                facets: old(self)@.facets.push(
                    FacetSpec {
                        resource: Some(resource@),
                        id: id@,
                        version: schema_version,
                        value: value@,
                    },
                ),
                ..old(self)@
            }),
    {
        self.facets.push(
            PendingFacet {
                resource: Some(owned(resource)),
                id: owned(id),
                facet: Facet { schema_version, value: owned(value) },
            },
        );
        proof {
            assert(self@.facets =~= old(self)@.facets.push(
                FacetSpec {
                    resource: Some(resource@),
                    id: id@,
                    version: schema_version,
                    value: value@,
                },
            ));
        }
    }

    /// Sets the display metadata of the protocol or plugin itself.
    pub fn display(&mut self, display: ResourceDisplay)
        ensures
            final(self)@ == (ContributionsView { display: Some(display@), ..old(self)@ }),
    {
        self.display = Some(display);
    }

    /// Sets the display metadata of an owner-local resource.
    pub fn resource_display(&mut self, resource: &str, display: ResourceDisplay)
        ensures
            final(self)@ == (ContributionsView {
                resource_displays: old(self)@.resource_displays.push((resource@, display@)),
                ..old(self)@
            }),
    {
        self.resource_displays.push((owned(resource), display));
        proof {
            assert(self@.resource_displays =~= old(self)@.resource_displays.push(
                (resource@, display@),
            ));
        }
    }

    /// Whether a resource with owner-local identity `id` has been declared.
    fn is_declared(&self, id: &str) -> (r: bool)
        ensures
            r == declared(self@, id@),
    {
        let mut i: usize = 0;
        while i < self.resources.len()
            invariant
                i <= self.resources@.len(),
                forall|j: int| 0 <= j < i ==> (#[trigger] self@.resources[j]).id != id@,
            decreases self.resources@.len() - i,
        {
            if text_eq(self.resources[i].id.as_str(), id) {
                proof {
                    assert(self@.resources[i as int].id == id@);
                }
                return true;
            }
            i = i + 1;
        }
        false
    }

    fn check_resources(&self) -> (r: Result<Vec<ContributedResource>, ToolingContributionError>)
        ensures
            r is Ok <==> all_resources_ok(self@),
            r matches Ok(v) ==> resource_views(v@) == self@.resources.map_values(
                |x: ResourceSpec| resource_out(self@.owner, x),
            ) && forall|i: int|
                0 <= i < v@.len() ==> (#[trigger] v@[i]).owner@ == self@.owner && v@[i].origin@
                    == "tooling-contribution"@,
            r matches Err(e) ==> exists|k: int|
                0 <= k < self@.resources.len() && (forall|i: int|
                    0 <= i < k ==> #[trigger] resource_ok(self@, i)) && !resource_ok(self@, k)
                    && resource_fault(self@, k, e),
    {
        let ghost c = self@;
        let mut out: Vec<ContributedResource> = Vec::new();
        let mut k: usize = 0;
        while k < self.resources.len()
            invariant
                c == self@,
                k <= self.resources@.len(),
                forall|i: int| 0 <= i < k ==> #[trigger] resource_ok(c, i),
                out@.len() == k,
                resource_views(out@) == c.resources.take(k as int).map_values(
                    |x: ResourceSpec| resource_out(c.owner, x),
                ),
                forall|i: int|
                    0 <= i < out@.len() ==> (#[trigger] out@[i]).owner@ == c.owner
                        && out@[i].origin@ == "tooling-contribution"@,
            decreases self.resources@.len() - k,
        {
            let resource = &self.resources[k];
            match validate_local_id(resource.id.as_str()) {
                Ok(()) => {},
                Err(e) => {
                    proof {
                        assert(!resource_ok(c, k as int));
                    }
                    return Err(e);
                },
            }
            if is_blank(resource.name.as_str()) {
                proof {
                    assert(!resource_ok(c, k as int));
                }
                return Err(
                    ToolingContributionError::EmptyResourceName { id: owned(resource.id.as_str()) },
                );
            }
            let mut j: usize = 0;
            while j < k
                invariant
                    c == self@,
                    k < self.resources@.len(),
                    j <= k,
                    resource == &self.resources@[k as int],
                    forall|i: int| 0 <= i < k ==> #[trigger] resource_ok(c, i),
                    local_id_ok(c.resources[k as int].id),
                    !is_blank_spec(c.resources[k as int].name),
                    forall|i: int| 0 <= i < j ==> (#[trigger] c.resources[i]).id != c.resources[k as int].id,
                decreases k - j,
            {
                if text_eq(self.resources[j].id.as_str(), resource.id.as_str()) {
                    proof {
                        assert(c.resources[j as int].id == c.resources[k as int].id);
                        assert(!resource_ok(c, k as int));
                    }
                    return Err(
                        ToolingContributionError::DuplicateResource {
                            id: owned(resource.id.as_str()),
                        },
                    );
                }
                j = j + 1;
            }
            proof {
                assert(resource_ok(c, k as int));
            }
            let item = ContributedResource {
                id: qualify(self.owner.as_str(), resource.id.as_str()),
                name: owned(resource.name.as_str()),
                owner: owned(self.owner.as_str()),
                origin: owned("tooling-contribution"),
                labels: copy_labels(&resource.labels),
            };
            let ghost gi = item;
            let ghost old_out = out@;
            out.push(item);
            proof {
                assert(out@ == old_out.push(gi));
                let target = c.resources.take(k + 1).map_values(
                    |x: ResourceSpec| resource_out(c.owner, x),
                );
                assert forall|i: int| 0 <= i < k + 1 implies #[trigger] resource_views(out@)[i]
                    == target[i] by {
                    if i < k {
                        assert(out@[i] == old_out[i]);
                        assert(resource_views(old_out)[i] == c.resources.take(k as int).map_values(
                            |x: ResourceSpec| resource_out(c.owner, x),
                        )[i]);
                    }
                }
                assert(resource_views(out@) =~= target);
                assert forall|i: int| 0 <= i < out@.len() implies (#[trigger] out@[i]).owner@
                    == c.owner && out@[i].origin@ == "tooling-contribution"@ by {
                    if i < k {
                        assert(out@[i] == old_out[i]);
                    }
                }
            }
            k = k + 1;
        }
        proof {
            assert(c.resources.take(k as int) =~= c.resources);
        }
        Ok(out)
    }

    fn check_endpoint(&self, ep: &PendingEndpoint) -> (r: Result<(), ToolingContributionError>)
        ensures
            r is Ok <==> endpoint_ok(self@, ep.view()),
            r matches Err(e) ==> endpoint_fault(ep.view(), e),
    {
        match ep {
            PendingEndpoint::Owner => Ok(()),
            PendingEndpoint::Resource(id) => {
                validate_local_id(id.as_str())?;
                if !self.is_declared(id.as_str()) {
                    return Err(ToolingContributionError::UnknownEndpoint { id: owned(id.as_str()) });
                }
                Ok(())
            },
        }
    }

    fn check_relationships(&self) -> (r: Result<Vec<ContributedRelationship>, ToolingContributionError>)
        ensures
            r is Ok <==> all_relationships_ok(self@),
            r matches Ok(v) ==> relationship_views(v@) == self@.relationships.map_values(
                |x: RelationshipSpec| relationship_out(self@.owner, x),
            ),
            r matches Err(e) ==> exists|k: int|
                0 <= k < self@.relationships.len() && (forall|i: int|
                    0 <= i < k ==> #[trigger] relationship_ok(self@, i)) && !relationship_ok(self@, k)
                    && relationship_fault(self@, k, e),
    {
        let ghost c = self@;
        let mut out: Vec<ContributedRelationship> = Vec::new();
        let mut k: usize = 0;
        while k < self.relationships.len()
            invariant
                c == self@,
                k <= self.relationships@.len(),
                forall|i: int| 0 <= i < k ==> #[trigger] relationship_ok(c, i),
                out@.len() == k,
                relationship_views(out@) == c.relationships.take(k as int).map_values(
                    |x: RelationshipSpec| relationship_out(c.owner, x),
                ),
            decreases self.relationships@.len() - k,
        {
            let relationship = &self.relationships[k];
            let ghost rk = c.relationships[k as int];
            match self.check_endpoint(&relationship.from) {
                Ok(()) => {},
                Err(e) => {
                    proof {
                        assert(!relationship_ok(c, k as int));
                    }
                    return Err(e);
                },
            }
            match self.check_endpoint(&relationship.to) {
                Ok(()) => {},
                Err(e) => {
                    proof {
                        assert(!relationship_ok(c, k as int));
                    }
                    return Err(e);
                },
            }
            let shaped = match relationship.kind {
                ToolingRelationshipKind::Contains => match relationship.to {
                    PendingEndpoint::Resource(_) => true,
                    PendingEndpoint::Owner => false,
                },
                _ => match (&relationship.from, &relationship.to) {
                    (PendingEndpoint::Resource(_), PendingEndpoint::Resource(_)) => true,
                    _ => false,
                },
            };
            if !shaped {
                proof {
                    assert(!shape_ok(rk.kind, rk.from, rk.to));
                    assert(!relationship_ok(c, k as int));
                }
                return Err(ToolingContributionError::InvalidRelationshipEndpoints);
            }
            let from = relationship.from.qualify(self.owner.as_str());
            let to = relationship.to.qualify(self.owner.as_str());
            let mut j: usize = 0;
            while j < k
                invariant
                    c == self@,
                    k < self.relationships@.len(),
                    j <= k,
                    out@.len() == k,
                    relationship == &self.relationships@[k as int],
                    rk == c.relationships[k as int],
                    forall|i: int| 0 <= i < k ==> #[trigger] relationship_ok(c, i),
                    endpoint_ok(c, rk.from),
                    endpoint_ok(c, rk.to),
                    shape_ok(rk.kind, rk.from, rk.to),
                    from@ == endpoint_qualified(c.owner, rk.from),
                    to@ == endpoint_qualified(c.owner, rk.to),
                    relationship_views(out@) == c.relationships.take(k as int).map_values(
                        |x: RelationshipSpec| relationship_out(c.owner, x),
                    ),
                    forall|i: int| 0 <= i < j ==> !#[trigger] same_relationship(c, i, k as int),
                decreases k - j,
            {
                let earlier = &out[j];
                proof {
                    assert(relationship_views(out@)[j as int] == relationship_out(
                        c.owner,
                        c.relationships[j as int],
                    ));
                }
                if earlier.kind == relationship.kind && text_eq(earlier.from.as_str(), from.as_str())
                    && text_eq(earlier.to.as_str(), to.as_str()) && labels_equal(
                    &earlier.labels,
                    &relationship.labels,
                ) {
                    proof {
                        assert(same_relationship(c, j as int, k as int));
                        assert(!relationship_ok(c, k as int));
                    }
                    return Err(ToolingContributionError::DuplicateRelationship { from, to });
                }
                j = j + 1;
            }
            proof {
                assert(relationship_ok(c, k as int));
            }
            let item = ContributedRelationship {
                kind: relationship.kind,
                from,
                to,
                labels: copy_labels(&relationship.labels),
            };
            let ghost gi = item;
            let ghost old_out = out@;
            out.push(item);
            proof {
                assert(out@ == old_out.push(gi));
                let target = c.relationships.take(k + 1).map_values(
                    |x: RelationshipSpec| relationship_out(c.owner, x),
                );
                assert forall|i: int| 0 <= i < k + 1 implies #[trigger] relationship_views(out@)[i]
                    == target[i] by {
                    if i < k {
                        assert(out@[i] == old_out[i]);
                        assert(relationship_views(old_out)[i] == c.relationships.take(
                            k as int,
                        ).map_values(|x: RelationshipSpec| relationship_out(c.owner, x))[i]);
                    }
                }
                assert(relationship_views(out@) =~= target);
            }
            k = k + 1;
        }
        proof {
            assert(c.relationships.take(k as int) =~= c.relationships);
        }
        Ok(out)
    }

    fn check_facets(&self) -> (r: Result<Vec<ContributedFacet>, ToolingContributionError>)
        ensures
            r is Ok <==> all_facets_ok(self@),
            r matches Ok(v) ==> facet_views(v@) == self@.facets.map_values(
                |x: FacetSpec| facet_out(self@.owner, x),
            ),
            r matches Err(e) ==> exists|k: int|
                0 <= k < self@.facets.len() && (forall|i: int|
                    0 <= i < k ==> #[trigger] facet_ok(self@, i)) && !facet_ok(self@, k)
                    && facet_fault(self@, k, e),
    {
        let ghost c = self@;
        let mut out: Vec<ContributedFacet> = Vec::new();
        let mut k: usize = 0;
        while k < self.facets.len()
            invariant
                c == self@,
                k <= self.facets@.len(),
                forall|i: int| 0 <= i < k ==> #[trigger] facet_ok(c, i),
                out@.len() == k,
                facet_views(out@) == c.facets.take(k as int).map_values(
                    |x: FacetSpec| facet_out(c.owner, x),
                ),
            decreases self.facets@.len() - k,
        {
            let facet = &self.facets[k];
            let ghost fk = c.facets[k as int];
            match validate_local_id(facet.id.as_str()) {
                Ok(()) => {},
                Err(e) => {
                    proof {
                        assert(!facet_ok(c, k as int));
                    }
                    return Err(e);
                },
            }
            if facet.facet.schema_version == 0 {
                proof {
                    assert(!facet_ok(c, k as int));
                }
                return Err(ToolingContributionError::InvalidFacetVersion { id: owned(facet.id.as_str()) });
            }
            let target = match &facet.resource {
                Some(resource) => {
                    match validate_local_id(resource.as_str()) {
                        Ok(()) => {},
                        Err(e) => {
                            proof {
                                assert(!facet_ok(c, k as int));
                            }
                            return Err(e);
                        },
                    }
                    if !self.is_declared(resource.as_str()) {
                        proof {
                            assert(!facet_ok(c, k as int));
                        }
                        return Err(ToolingContributionError::UnknownEndpoint { id: owned(resource.as_str()) });
                    }
                    qualify(self.owner.as_str(), resource.as_str())
                },
                None => owned(self.owner.as_str()),
            };
            let id = qualify(target.as_str(), facet.id.as_str());
            proof {
                assert(target@ == facet_target(c.owner, fk));
                assert(id@ == facet_qualified(c.owner, fk));
            }
            let mut j: usize = 0;
            while j < k
                invariant
                    c == self@,
                    k < self.facets@.len(),
                    j <= k,
                    out@.len() == k,
                    fk == c.facets[k as int],
                    forall|i: int| 0 <= i < k ==> #[trigger] facet_ok(c, i),
                    local_id_ok(fk.id),
                    fk.version != 0,
                    fk.resource matches Some(r) ==> local_id_ok(r) && declared(c, r),
                    id@ == facet_qualified(c.owner, fk),
                    facet_views(out@) == c.facets.take(k as int).map_values(
                        |x: FacetSpec| facet_out(c.owner, x),
                    ),
                    forall|i: int| 0 <= i < j ==> facet_qualified(c.owner, #[trigger] c.facets[i]) != facet_qualified(c.owner, fk),
                decreases k - j,
            {
                proof {
                    assert(facet_views(out@)[j as int] == facet_out(c.owner, c.facets[j as int]));
                }
                if text_eq(out[j].id.as_str(), id.as_str()) {
                    proof {
                        assert(!facet_ok(c, k as int));
                    }
                    return Err(ToolingContributionError::DuplicateFacet { id });
                }
                j = j + 1;
            }
            proof {
                assert(facet_ok(c, k as int));
            }
            let item = ContributedFacet { target, id, facet: facet.facet.copied() };
            let ghost gi = item;
            let ghost old_out = out@;
            out.push(item);
            proof {
                assert(out@ == old_out.push(gi));
                let want = c.facets.take(k + 1).map_values(|x: FacetSpec| facet_out(c.owner, x));
                assert forall|i: int| 0 <= i < k + 1 implies #[trigger] facet_views(out@)[i]
                    == want[i] by {
                    if i < k {
                        assert(out@[i] == old_out[i]);
                        assert(facet_views(old_out)[i] == c.facets.take(k as int).map_values(
                            |x: FacetSpec| facet_out(c.owner, x),
                        )[i]);
                    }
                }
                assert(facet_views(out@) =~= want);
            }
            k = k + 1;
        }
        proof {
            assert(c.facets.take(k as int) =~= c.facets);
        }
        Ok(out)
    }

    fn check_displays(&self) -> (r: Result<Vec<(String, ResourceDisplay)>, ToolingContributionError>)
        ensures
            r is Ok <==> all_displays_ok(self@),
            r matches Ok(v) ==> display_views(v@) == self@.resource_displays.map_values(
                |p: (Seq<char>, (Option<Seq<char>>, Option<Seq<char>>))| (qualify_spec(self@.owner, p.0), p.1),
            ),
            r matches Err(e) ==> exists|k: int|
                0 <= k < self@.resource_displays.len() && (forall|i: int|
                    0 <= i < k ==> #[trigger] display_ok(self@, i)) && !display_ok(self@, k)
                    && display_fault(self@, k, e),
    {
        let ghost c = self@;
        let mut out: Vec<(String, ResourceDisplay)> = Vec::new();
        let mut k: usize = 0;
        while k < self.resource_displays.len()
            invariant
                c == self@,
                k <= self.resource_displays@.len(),
                forall|i: int| 0 <= i < k ==> #[trigger] display_ok(c, i),
                out@.len() == k,
                display_views(out@) == c.resource_displays.take(k as int).map_values(
                    |p: (Seq<char>, (Option<Seq<char>>, Option<Seq<char>>))| (qualify_spec(c.owner, p.0), p.1),
                ),
            decreases self.resource_displays@.len() - k,
        {
            let entry = &self.resource_displays[k];
            match validate_local_id(entry.0.as_str()) {
                Ok(()) => {},
                Err(e) => {
                    proof {
                        assert(!display_ok(c, k as int));
                    }
                    return Err(e);
                },
            }
            if !self.is_declared(entry.0.as_str()) {
                proof {
                    assert(!display_ok(c, k as int));
                }
                return Err(ToolingContributionError::UnknownEndpoint { id: owned(entry.0.as_str()) });
            }
            proof {
                assert(display_ok(c, k as int));
            }
            let item = (qualify(self.owner.as_str(), entry.0.as_str()), entry.1.copied());
            let ghost gi = item;
            let ghost old_out = out@;
            out.push(item);
            proof {
                assert(out@ == old_out.push(gi));
                let want = c.resource_displays.take(k + 1).map_values(
                    |p: (Seq<char>, (Option<Seq<char>>, Option<Seq<char>>))| (qualify_spec(c.owner, p.0), p.1),
                );
                assert forall|i: int| 0 <= i < k + 1 implies #[trigger] display_views(out@)[i]
                    == want[i] by {
                    if i < k {
                        assert(out@[i] == old_out[i]);
                        assert(display_views(old_out)[i] == c.resource_displays.take(
                            k as int,
                        ).map_values(
                            |p: (Seq<char>, (Option<Seq<char>>, Option<Seq<char>>))|
                                (qualify_spec(c.owner, p.0), p.1),
                        )[i]);
                    }
                }
                assert(display_views(out@) =~= want);
            }
            k = k + 1;
        }
        proof {
            assert(c.resource_displays.take(k as int) =~= c.resource_displays);
        }
        Ok(out)
    }

    /// Validates the collected metadata and qualifies every owner-local identity.
    ///
    /// The owner is checked first, then resources, relationships, facets and resource displays
    /// in declaration order, and finally that a protocol owner describes itself; the first
    /// violation is reported.
    pub fn finish(&self) -> (r: Result<ToolingContributionSet, ToolingContributionError>)
        ensures
            r is Ok <==> contributions_valid(self@),
            r matches Ok(s) ==> set_matches(self@, s),
            r matches Err(e) ==> first_contribution_fault(self@, e),
    {
        validate_owner(self.owner.as_str())?;
        let resources = self.check_resources()?;
        let relationships = self.check_relationships()?;
        let facets = self.check_facets()?;
        let resource_displays = self.check_displays()?;
        let owner_display = match &self.display {
            Some(d) => Some(d.copied()),
            None => None,
        };
        if owner_display.is_none() && starts_with(self.owner.as_str(), "protocol:") {
            return Err(ToolingContributionError::MissingProtocolDisplay { id: owned(self.owner.as_str()) });
        }
        Ok(
            ToolingContributionSet {
                owner: owned(self.owner.as_str()),
                owner_display,
                resources,
                relationships,
                facets,
                resource_displays,
            },
        )
    }
}

} // verus!
