//! Immutable protocol-owned scope topology declarations and validation.
//!
//! A topology declares non-root scope boundaries, each with exactly one parent: the implicit
//! application root or another declared boundary. Preparation sorts the boundaries into stable
//! identity order and rejects duplicate or reserved identities, missing or self parents, parent
//! cycles and parents that do not outlive their children. A prepared topology answers lookup,
//! ancestry and reachability queries.

use vstd::prelude::*;

use crate::text::{
    lemma_text_lt_irreflexive, lemma_text_lt_total, lemma_text_lt_transitive, owned, text_eq,
    text_lt, text_order,
};

verus! {

// ---------------------------------------------------------------------------------------------
// Identities and declarations
// ---------------------------------------------------------------------------------------------

/// The stable identity of a scope, such as `"test/http-request"`.
#[derive(Clone, Debug, PartialEq, Eq, PartialOrd, Ord, Hash)]
pub struct ScopeId {
    pub text: String,
}

impl View for ScopeId {
    type V = Seq<char>;

    open spec fn view(&self) -> Seq<char> {
        self.text@
    }
}

/// The identity of the framework-owned application root (the singleton scope).
pub open spec fn root_id() -> Seq<char> {
    "overseerd/singleton"@
}

/// The identity of the framework-owned transient anchor.
pub open spec fn transient_id() -> Seq<char> {
    "overseerd/transient"@
}

/// The lifetime rank of the application root: every other scope is shorter-lived.
pub open spec fn root_rank() -> u8 {
    255
}

impl ScopeId {
    /// Creates an identity from its text.
    pub fn new(text: &str) -> (r: Self)
        ensures
            r@ == text@,
    {
        ScopeId { text: owned(text) }
    }

    /// The identity of the application root.
    pub fn root() -> (r: Self)
        ensures
            r@ == root_id(),
    {
        ScopeId::new("overseerd/singleton")
    }

    /// The identity of the transient anchor.
    pub fn transient() -> (r: Self)
        ensures
            r@ == transient_id(),
    {
        ScopeId::new("overseerd/transient")
    }

    /// The identity's text.
    pub fn as_str(&self) -> (r: &str)
        ensures
            r@ == self@,
    {
        self.text.as_str()
    }

    /// An owned copy of this identity.
    pub fn copied(&self) -> (r: Self)
        ensures
            r@ == self@,
    {
        ScopeId { text: owned(self.text.as_str()) }
    }

    /// Whether both identities have the same text.
    pub fn same(&self, other: &ScopeId) -> (r: bool)
        ensures
            r == (self@ == other@),
    {
        text_eq(self.text.as_str(), other.text.as_str())
    }

    /// Whether this identity strictly precedes `other` in stable identity order.
    pub fn precedes(&self, other: &ScopeId) -> (r: bool)
        ensures
            r == text_lt(self@, other@),
    {
        text_order(self.text.as_str(), other.text.as_str()) < 0
    }
}

/// The declared parent of a boundary. `None` in the view stands for the implicit root.
#[derive(Clone, Debug, PartialEq, Eq, PartialOrd, Ord, Hash)]
pub enum ScopeParent {
    /// The framework-owned application root.
    Root,
    /// Another boundary declared by the same topology.
    Boundary(ScopeId),
}

impl View for ScopeParent {
    type V = Option<Seq<char>>;

    open spec fn view(&self) -> Option<Seq<char>> {
        match self {
            ScopeParent::Root => None,
            ScopeParent::Boundary(id) => Some(id@),
        }
    }
}

/// The identity a parent view stands for.
pub open spec fn parent_identity(p: Option<Seq<char>>) -> Seq<char> {
    match p {
        None => root_id(),
        Some(id) => id,
    }
}

impl ScopeParent {
    /// Creates a parent reference to another declared boundary.
    pub fn boundary(id: ScopeId) -> (r: Self)
        ensures
            r@ == Some(id@),
    {
        ScopeParent::Boundary(id)
    }

    /// Returns the stable identity of this parent (the root identity for the root).
    pub fn id(&self) -> (r: ScopeId)
        ensures
            r@ == parent_identity(self@),
    {
        match self {
            ScopeParent::Root => ScopeId::root(),
            ScopeParent::Boundary(id) => id.copied(),
        }
    }

    /// Returns whether this parent is the implicit application root.
    pub fn is_root(&self) -> (r: bool)
        ensures
            r == (self@ is None),
    {
        match self {
            ScopeParent::Root => true,
            ScopeParent::Boundary(_) => false,
        }
    }

    /// An owned copy of this parent.
    pub fn copied(&self) -> (r: Self)
        ensures
            r@ == self@,
    {
        match self {
            ScopeParent::Root => ScopeParent::Root,
            ScopeParent::Boundary(id) => ScopeParent::Boundary(id.copied()),
        }
    }
}

/// The static declaration of one scope: its stable identity, diagnostic name and lifetime rank.
#[derive(Clone, Debug)]
pub struct ScopeDecl {
    pub id: ScopeId,
    pub name: String,
    pub rank: u8,
}

impl ScopeDecl {
    /// Declares a scope.
    pub fn new(id: &str, name: &str, rank: u8) -> (r: Self)
        ensures
            r.id@ == id@,
            r.name@ == name@,
            r.rank == rank,
    {
        ScopeDecl { id: ScopeId::new(id), name: owned(name), rank }
    }

    /// The framework's application root (singleton) scope.
    pub fn singleton() -> (r: Self)
        ensures
            r.id@ == root_id(),
            r.name@ == "Singleton"@,
            r.rank == root_rank(),
    {
        ScopeDecl { id: ScopeId::root(), name: owned("Singleton"), rank: 255 }
    }

    /// The framework's transient anchor scope.
    pub fn transient() -> (r: Self)
        ensures
            r.id@ == transient_id(),
            r.name@ == "Transient"@,
            r.rank == 0,
    {
        ScopeDecl { id: ScopeId::transient(), name: owned("Transient"), rank: 0 }
    }

    /// An owned copy of this declaration.
    pub fn copied(&self) -> (r: Self)
        ensures
            r.id@ == self.id@,
            r.name@ == self.name@,
            r.rank == self.rank,
    {
        ScopeDecl { id: self.id.copied(), name: owned(self.name.as_str()), rank: self.rank }
    }
}

/// The mathematical content of one boundary.
pub struct BoundaryView {
    pub id: Seq<char>,
    pub name: Seq<char>,
    pub rank: u8,
    pub parent: Option<Seq<char>>,
}

/// One openable scope and its single declared parent boundary.
#[derive(Clone, Debug)]
pub struct ScopeBoundary {
    pub scope: ScopeDecl,
    pub parent: ScopeParent,
}

impl View for ScopeBoundary {
    type V = BoundaryView;

    open spec fn view(&self) -> BoundaryView {
        BoundaryView {
            id: self.scope.id@,
            name: self.scope.name@,
            rank: self.scope.rank,
            parent: self.parent@,
        }
    }
}

impl ScopeBoundary {
    /// Declares an openable scope boundary under its only valid parent.
    pub fn new(scope: ScopeDecl, parent: ScopeParent) -> (r: Self)
        ensures
            r.scope.id@ == scope.id@,
            r.scope.name@ == scope.name@,
            r.scope.rank == scope.rank,
            r@.parent == parent@,
    {
        ScopeBoundary { scope, parent }
    }

    /// Returns the stable identity of this boundary.
    pub fn id(&self) -> (r: &ScopeId)
        ensures
            r@ == self@.id,
    {
        &self.scope.id
    }

    /// Returns the scope declaration captured by this boundary.
    pub fn scope(&self) -> (r: &ScopeDecl)
        ensures
            r.id@ == self@.id,
            r.name@ == self@.name,
            r.rank == self@.rank,
    {
        &self.scope
    }

    /// Returns the diagnostic label captured from the scope declaration.
    pub fn name(&self) -> (r: &str)
        ensures
            r@ == self@.name,
    {
        self.scope.name.as_str()
    }

    /// Returns the lifetime rank captured from the scope declaration.
    pub fn rank(&self) -> (r: u8)
        ensures
            r == self@.rank,
    {
        self.scope.rank
    }

    /// Returns this boundary's only valid parent.
    pub fn parent(&self) -> (r: &ScopeParent)
        ensures
            r@ == self@.parent,
    {
        &self.parent
    }

    /// An owned copy of this boundary.
    pub fn copied(&self) -> (r: Self)
        ensures
            r@ == self@,
    {
        ScopeBoundary { scope: self.scope.copied(), parent: self.parent.copied() }
    }
}

/// The views of a sequence of boundaries.
pub open spec fn views(bs: Seq<ScopeBoundary>) -> Seq<BoundaryView> {
    bs.map_values(|b: ScopeBoundary| b@)
}

// ---------------------------------------------------------------------------------------------
// The mathematical model of a topology
// ---------------------------------------------------------------------------------------------

/// Whether some boundary of `bs` has identity `id`.
pub open spec fn has_id(bs: Seq<BoundaryView>, id: Seq<char>) -> bool {
    exists|i: int| 0 <= i < bs.len() && #[trigger] bs[i].id == id
}

/// The boundary of `bs` with identity `id` (meaningful when `has_id`).
pub open spec fn lookup(bs: Seq<BoundaryView>, id: Seq<char>) -> BoundaryView {
    bs[choose|i: int| 0 <= i < bs.len() && #[trigger] bs[i].id == id]
}

/// The declared parent of `id`, if `id` is a boundary of `bs`.
pub open spec fn parent_of(bs: Seq<BoundaryView>, id: Seq<char>) -> Option<Option<Seq<char>>> {
    if has_id(bs, id) {
        Some(lookup(bs, id).parent)
    } else {
        None
    }
}

/// The parent boundary of `id`, when `id` is a boundary whose parent is not the root.
#[verifier::opaque]
pub open spec fn step(bs: Seq<BoundaryView>, id: Seq<char>) -> Option<Seq<char>> {
    match parent_of(bs, id) {
        Some(Some(p)) => Some(p),
        _ => None,
    }
}

/// The boundary reached from `id` by following `k` parent links between boundaries.
pub open spec fn ancestor_at(bs: Seq<BoundaryView>, id: Seq<char>, k: nat) -> Option<Seq<char>>
    decreases k,
{
    if k == 0 {
        Some(id)
    } else {
        match step(bs, id) {
            Some(p) => ancestor_at(bs, p, (k - 1) as nat),
            None => None,
        }
    }
}

/// Whether `id` is a boundary whose parent is the implicit root.
pub open spec fn root_parented(bs: Seq<BoundaryView>, id: Seq<char>) -> bool {
    parent_of(bs, id) == Some(None::<Seq<char>>)
}

/// Whether following parent links from `id` reaches a boundary parented by the root.
pub open spec fn reaches_root(bs: Seq<BoundaryView>, id: Seq<char>) -> bool {
    exists|k: nat| #[trigger] ancestor_at(bs, id, k) matches Some(a) && root_parented(bs, a)
}

/// Whether the identity is framework-owned and therefore not declarable.
pub open spec fn reserved(id: Seq<char>) -> bool {
    id == root_id() || id == transient_id()
}

/// Boundaries appear in non-decreasing identity order.
pub open spec fn sorted_by_id(bs: Seq<BoundaryView>) -> bool {
    forall|i: int, j: int| 0 <= i < j < bs.len() ==> !text_lt(#[trigger] bs[j].id, #[trigger] bs[i].id)
}

/// Boundaries appear in strictly increasing identity order (so identities are distinct).
pub open spec fn strictly_sorted(bs: Seq<BoundaryView>) -> bool {
    forall|i: int, j: int| 0 <= i < j < bs.len() ==> text_lt(#[trigger] bs[i].id, #[trigger] bs[j].id)
}

/// The identity check at position `i` of a sorted sequence: not a repeat of the previous
/// identity and not reserved.
pub open spec fn id_ok(bs: Seq<BoundaryView>, i: int) -> bool {
    &&& !(i > 0 && bs[i - 1].id == bs[i].id)
    &&& !reserved(bs[i].id)
}

/// The parent check at position `i`: a boundary parent is another declared boundary.
pub open spec fn parent_ok(bs: Seq<BoundaryView>, i: int) -> bool {
    match bs[i].parent {
        None => true,
        Some(p) => p != bs[i].id && has_id(bs, p),
    }
}

/// The lifetime rank of a parent: the root rank, or the rank of the parent boundary.
pub open spec fn parent_rank(bs: Seq<BoundaryView>, b: BoundaryView) -> u8 {
    match b.parent {
        None => root_rank(),
        Some(p) => lookup(bs, p).rank,
    }
}

/// The rank check at position `i`: the parent is strictly longer-lived than the child.
pub open spec fn rank_ok(bs: Seq<BoundaryView>, i: int) -> bool {
    parent_rank(bs, bs[i]) > bs[i].rank
}

/// A parent cycle in canonical form: distinct members, each member's parent is the next one
/// (the last member's parent is the first), and the first member has the least identity.
pub open spec fn canonical_cycle(bs: Seq<BoundaryView>, m: Seq<Seq<char>>) -> bool {
    &&& m.len() > 0
    &&& m.no_duplicates()
    &&& forall|i: int| 0 <= i < m.len() - 1 ==> step(bs, #[trigger] m[i]) == Some(m[i + 1])
    &&& step(bs, m[m.len() - 1]) == Some(m[0])
    &&& forall|i: int| 0 < i < m.len() ==> text_lt(m[0], #[trigger] m[i])
}

/// A validated topology: strictly sorted, valid identities and parents, no cycles, and every
/// parent strictly longer-lived than its child.
pub open spec fn well_formed(bs: Seq<BoundaryView>) -> bool {
    &&& strictly_sorted(bs)
    &&& forall|i: int| 0 <= i < bs.len() ==> #[trigger] id_ok(bs, i)
    &&& forall|i: int| 0 <= i < bs.len() ==> #[trigger] parent_ok(bs, i)
    &&& forall|i: int| 0 <= i < bs.len() ==> #[trigger] reaches_root(bs, bs[i].id)
    &&& forall|i: int| 0 <= i < bs.len() ==> #[trigger] rank_ok(bs, i)
}

/// `s` is `input` reordered into non-decreasing identity order.
pub open spec fn sorted_permutation(input: Seq<BoundaryView>, s: Seq<BoundaryView>) -> bool {
    &&& s.to_multiset() == input.to_multiset()
    &&& sorted_by_id(s)
}

/// `e` is the failure that the identity check reports first on `bs`.
pub open spec fn first_id_fault(bs: Seq<BoundaryView>, e: ScopeTopologyError) -> bool {
    exists|k: int|
        0 <= k < bs.len() && (forall|i: int| 0 <= i < k ==> #[trigger] id_ok(bs, i)) && !id_ok(bs, k)
            && (if k > 0 && bs[k - 1].id == bs[k].id {
            e matches ScopeTopologyError::DuplicateId { id } && id@ == bs[k].id
        } else {
            e matches ScopeTopologyError::ReservedId { id } && id@ == bs[k].id
        })
}

/// `e` is the failure that the parent check reports first on `bs`.
pub open spec fn first_parent_fault(bs: Seq<BoundaryView>, e: ScopeTopologyError) -> bool {
    exists|k: int|
        0 <= k < bs.len() && (forall|i: int| 0 <= i < k ==> #[trigger] parent_ok(bs, i))
            && !parent_ok(bs, k) && (if bs[k].parent == Some(bs[k].id) {
            e matches ScopeTopologyError::SelfParent { id } && id@ == bs[k].id
        } else {
            e matches ScopeTopologyError::MissingParent { id, parent } && id@ == bs[k].id
                && Some(parent@) == bs[k].parent
        })
}

/// The identities of a sequence of scope ids.
pub open spec fn id_views(m: Seq<ScopeId>) -> Seq<Seq<char>> {
    m.map_values(|x: ScopeId| x@)
}

/// `e` is the cycle that the cycle check reports first on `bs`: the canonical cycle reached
/// from the first boundary (in order) whose ancestry never reaches the root.
pub open spec fn first_cycle_fault(bs: Seq<BoundaryView>, e: ScopeTopologyError) -> bool {
    exists|k: int|
        0 <= k < bs.len() && (forall|i: int| 0 <= i < k ==> #[trigger] reaches_root(bs, bs[i].id))
            && !reaches_root(bs, bs[k].id) && (e matches ScopeTopologyError::Cycle { members }
            && canonical_cycle(bs, id_views(members@)) && exists|t: nat|
            #[trigger] ancestor_at(bs, bs[k].id, t) == Some(id_views(members@)[0]))
}

/// `e` is the failure that the rank check reports first on `bs`.
pub open spec fn first_rank_fault(bs: Seq<BoundaryView>, e: ScopeTopologyError) -> bool {
    exists|k: int|
        0 <= k < bs.len() && (forall|i: int| 0 <= i < k ==> #[trigger] rank_ok(bs, i)) && !rank_ok(
            bs,
            k,
        ) && (e matches ScopeTopologyError::InvalidParentRank {
            child,
            child_rank,
            parent,
            parent_rank: pr,
        } && child@ == bs[k].id && child_rank == bs[k].rank && parent@ == parent_identity(
            bs[k].parent,
        ) && pr == parent_rank(bs, bs[k]))
}

/// `e` is the failure that preparation reports for the sorted boundaries `bs`: the checks run
/// in the order identities, parents, cycles, ranks, each reporting its first violation.
pub open spec fn first_fault(bs: Seq<BoundaryView>, e: ScopeTopologyError) -> bool {
    ||| first_id_fault(bs, e)
    ||| (forall|i: int| 0 <= i < bs.len() ==> #[trigger] id_ok(bs, i)) && first_parent_fault(bs, e)
    ||| (forall|i: int| 0 <= i < bs.len() ==> #[trigger] id_ok(bs, i)) && (forall|i: int|
        0 <= i < bs.len() ==> #[trigger] parent_ok(bs, i)) && first_cycle_fault(bs, e)
    ||| (forall|i: int| 0 <= i < bs.len() ==> #[trigger] id_ok(bs, i)) && (forall|i: int|
        0 <= i < bs.len() ==> #[trigger] parent_ok(bs, i)) && (forall|i: int|
        0 <= i < bs.len() ==> #[trigger] reaches_root(bs, bs[i].id)) && first_rank_fault(bs, e)
}

// ---------------------------------------------------------------------------------------------
// Errors
// ---------------------------------------------------------------------------------------------

/// A structural failure in a protocol-owned scope topology declaration.
#[derive(Clone, Debug, PartialEq, Eq)]
pub enum ScopeTopologyError {
    /// The same stable identity appears more than once.
    DuplicateId { id: ScopeId },
    /// A declaration attempts to use a framework-owned anchor identity.
    ReservedId { id: ScopeId },
    /// A boundary names itself as its parent.
    SelfParent { id: ScopeId },
    /// A boundary's parent is not declared by the topology.
    MissingParent { id: ScopeId, parent: ScopeId },
    /// Parent links contain a structural cycle, listed in canonical parent-link order.
    Cycle { members: Vec<ScopeId> },
    /// A parent is not strictly longer-lived than its child.
    InvalidParentRank { child: ScopeId, child_rank: u8, parent: ScopeId, parent_rank: u8 },
}


// ---------------------------------------------------------------------------------------------
// Lookup and sorting
// ---------------------------------------------------------------------------------------------

/// In a strictly sorted sequence, the boundary found at `i` is the one `lookup` names.
pub proof fn lemma_lookup_unique(bs: Seq<BoundaryView>, i: int)
    requires
        strictly_sorted(bs),
        0 <= i < bs.len(),
    ensures
        has_id(bs, bs[i].id),
        lookup(bs, bs[i].id) == bs[i],
{
    let id = bs[i].id;
    assert(bs[i].id == id);
    let j = choose|j: int| 0 <= j < bs.len() && #[trigger] bs[j].id == id;
    if j < i {
        assert(text_lt(bs[j].id, bs[i].id));
        lemma_text_lt_irreflexive(id);
    } else if i < j {
        assert(text_lt(bs[i].id, bs[j].id));
        lemma_text_lt_irreflexive(id);
    }
}

/// A sorted sequence whose neighbours differ is strictly sorted.
pub proof fn lemma_strictly_sorted(bs: Seq<BoundaryView>)
    requires
        sorted_by_id(bs),
        forall|i: int| 0 < i < bs.len() ==> bs[i - 1].id != #[trigger] bs[i].id,
    ensures
        strictly_sorted(bs),
{
    assert forall|i: int, j: int| 0 <= i < j < bs.len() implies text_lt(
        #[trigger] bs[i].id,
        #[trigger] bs[j].id,
    ) by {
        lemma_strict_chain(bs, i, j);
    }
}

proof fn lemma_strict_chain(bs: Seq<BoundaryView>, i: int, j: int)
    requires
        sorted_by_id(bs),
        forall|k: int| 0 < k < bs.len() ==> bs[k - 1].id != #[trigger] bs[k].id,
        0 <= i < j < bs.len(),
    ensures
        text_lt(bs[i].id, bs[j].id),
    decreases j - i,
{
    assert(bs[j - 1].id != bs[j].id);
    assert(!text_lt(bs[j].id, bs[j - 1].id));
    lemma_text_lt_total(bs[j - 1].id, bs[j].id);
    if i < j - 1 {
        lemma_strict_chain(bs, i, j - 1);
        lemma_text_lt_transitive(bs[i].id, bs[j - 1].id, bs[j].id);
    }
}

/// Finds the position of the boundary with identity `id` by binary search.
pub fn find_boundary(bs: &Vec<ScopeBoundary>, id: &ScopeId) -> (r: Option<usize>)
    requires
        strictly_sorted(views(bs@)),
    ensures
        match r {
            Some(i) => i < bs@.len() && bs@[i as int]@.id == id@,
            None => !has_id(views(bs@), id@),
        },
{
    let ghost v = views(bs@);
    let mut lo: usize = 0;
    let mut hi: usize = bs.len();
    while lo < hi
        invariant
            v == views(bs@),
            strictly_sorted(v),
            lo <= hi <= bs@.len(),
            forall|i: int| 0 <= i < lo ==> text_lt(#[trigger] v[i].id, id@),
            forall|i: int| hi <= i < v.len() ==> text_lt(id@, #[trigger] v[i].id),
        decreases hi - lo,
    {
        let mid = lo + (hi - lo) / 2;
        let o = text_order(bs[mid].id().as_str(), id.as_str());
        if o == 0 {
            return Some(mid);
        } else if o < 0 {
            proof {
                assert forall|i: int| 0 <= i < mid + 1 implies text_lt(#[trigger] v[i].id, id@) by {
                    if i < mid {
                        assert(text_lt(v[i].id, v[mid as int].id));
                        lemma_text_lt_transitive(v[i].id, v[mid as int].id, id@);
                    }
                }
            }
            lo = mid + 1;
        } else {
            proof {
                assert forall|i: int| mid <= i < v.len() implies text_lt(id@, #[trigger] v[i].id) by {
                    if i > mid {
                        assert(text_lt(v[mid as int].id, v[i].id));
                        lemma_text_lt_transitive(id@, v[mid as int].id, v[i].id);
                    }
                }
            }
            hi = mid;
        }
    }
    proof {
        if has_id(v, id@) {
            let k = choose|k: int| 0 <= k < v.len() && #[trigger] v[k].id == id@;
            lemma_text_lt_irreflexive(id@);
            if k < lo {
                assert(text_lt(v[k].id, id@));
            } else {
                assert(text_lt(id@, v[k].id));
            }
        }
    }
    None
}

/// Copies `input` into non-decreasing identity order (stable insertion sort).
pub fn sort_boundaries(input: &Vec<ScopeBoundary>) -> (r: Vec<ScopeBoundary>)
    ensures
        sorted_permutation(views(input@), views(r@)),
{
    let ghost inv = views(input@);
    let mut r: Vec<ScopeBoundary> = Vec::new();
    let ghost mut g: Seq<BoundaryView> = Seq::empty();
    let mut i: usize = 0;
    proof {
        assert(inv.take(0) =~= Seq::<BoundaryView>::empty());
        assert(g =~= Seq::<BoundaryView>::empty());
    }
    while i < input.len()
        invariant
            inv == views(input@),
            i <= input@.len(),
            g.len() == r@.len(),
            forall|k: int| 0 <= k < r@.len() ==> #[trigger] r@[k]@ == g[k],
            sorted_by_id(g),
            g.to_multiset() == inv.take(i as int).to_multiset(),
        decreases input@.len() - i,
    {
        let x = input[i].copied();
        let mut pos: usize = 0;
        while pos < r.len() && !x.id().precedes(r[pos].id())
            invariant
                pos <= r@.len(),
                g.len() == r@.len(),
                forall|k: int| 0 <= k < r@.len() ==> #[trigger] r@[k]@ == g[k],
                forall|k: int| 0 <= k < pos ==> !text_lt(x@.id, #[trigger] g[k].id),
            decreases r@.len() - pos,
        {
            pos = pos + 1;
        }
        let ghost xv = x@;
        let ghost old_g = g;
        proof {
            assert forall|a: int, b: int| 0 <= a < b < old_g.len() + 1 implies !text_lt(
                #[trigger] old_g.insert(pos as int, xv)[b].id,
                #[trigger] old_g.insert(pos as int, xv)[a].id,
            ) by {
                let ng = old_g.insert(pos as int, xv);
                if b == pos {
                    assert(ng[a] == old_g[a]);
                } else if a == pos {
                    assert(ng[b] == old_g[b - 1]);
                    assert(pos < old_g.len());
                    assert(text_lt(xv.id, old_g[pos as int].id));
                    if text_lt(old_g[b - 1].id, xv.id) {
                        lemma_text_lt_transitive(old_g[b - 1].id, xv.id, old_g[pos as int].id);
                        if b - 1 > pos {
                            assert(!text_lt(old_g[b - 1].id, old_g[pos as int].id));
                        } else {
                            lemma_text_lt_irreflexive(old_g[pos as int].id);
                        }
                    }
                } else {
                    let a0 = if a < pos { a } else { a - 1 };
                    let b0 = if b < pos { b } else { b - 1 };
                    assert(ng[a] == old_g[a0]);
                    assert(ng[b] == old_g[b0]);
                }
            }
            vstd::seq_lib::to_multiset_insert(old_g, pos as int, xv);
            assert(inv.take(i + 1) =~= inv.take(i as int).push(inv[i as int]));
            vstd::seq_lib::to_multiset_build(inv.take(i as int), inv[i as int]);
            g = old_g.insert(pos as int, xv);
        }
        let ghost old_r = r@;
        r.insert(pos, x);
        proof {
            assert forall|k: int| 0 <= k < r@.len() implies #[trigger] r@[k]@ == g[k] by {
                if k < pos {
                } else if k > pos {
                    assert(r@[k] == old_r[k - 1]);
                }
            }
        }
        i = i + 1;
    }
    proof {
        assert(inv.take(i as int) =~= inv);
        assert(views(r@) =~= g);
    }
    r
}

// ---------------------------------------------------------------------------------------------
// Validation
// ---------------------------------------------------------------------------------------------

/// Rejects repeated or reserved identities, reporting the first offending position.
pub fn validate_ids(bs: &Vec<ScopeBoundary>) -> (r: Result<(), ScopeTopologyError>)
    ensures
        r is Ok <==> forall|i: int| 0 <= i < bs@.len() ==> #[trigger] id_ok(views(bs@), i),
        r matches Err(e) ==> first_id_fault(views(bs@), e),
{
    let ghost v = views(bs@);
    let root = ScopeId::root();
    let transient = ScopeId::transient();
    let mut index: usize = 0;
    while index < bs.len()
        invariant
            v == views(bs@),
            root@ == root_id(),
            transient@ == transient_id(),
            index <= bs@.len(),
            forall|i: int| 0 <= i < index ==> #[trigger] id_ok(v, i),
        decreases bs@.len() - index,
    {
        let id = bs[index].id();
        if index > 0 && bs[index - 1].id().same(id) {
            proof {
                assert(!id_ok(v, index as int));
            }
            return Err(ScopeTopologyError::DuplicateId { id: id.copied() });
        }
        if id.same(&root) || id.same(&transient) {
            proof {
                assert(!id_ok(v, index as int));
            }
            return Err(ScopeTopologyError::ReservedId { id: id.copied() });
        }
        proof {
            assert(id_ok(v, index as int));
        }
        index = index + 1;
    }
    Ok(())
}

/// Rejects self parents and undeclared parents, reporting the first offending position.
pub fn validate_parents(bs: &Vec<ScopeBoundary>) -> (r: Result<(), ScopeTopologyError>)
    requires
        strictly_sorted(views(bs@)),
    ensures
        r is Ok <==> forall|i: int| 0 <= i < bs@.len() ==> #[trigger] parent_ok(views(bs@), i),
        r matches Err(e) ==> first_parent_fault(views(bs@), e),
{
    let ghost v = views(bs@);
    let mut index: usize = 0;
    while index < bs.len()
        invariant
            v == views(bs@),
            strictly_sorted(v),
            index <= bs@.len(),
            forall|i: int| 0 <= i < index ==> #[trigger] parent_ok(v, i),
        decreases bs@.len() - index,
    {
        let boundary = &bs[index];
        match boundary.parent() {
            ScopeParent::Root => {},
            ScopeParent::Boundary(parent) => {
                if boundary.id().same(parent) {
                    proof {
                        assert(!parent_ok(v, index as int));
                    }
                    return Err(ScopeTopologyError::SelfParent { id: boundary.id().copied() });
                }
                match find_boundary(bs, parent) {
                    None => {
                        proof {
                            assert(!parent_ok(v, index as int));
                        }
                        return Err(
                            ScopeTopologyError::MissingParent {
                                id: boundary.id().copied(),
                                parent: parent.copied(),
                            },
                        );
                    },
                    Some(found) => {
                        proof {
                            assert(v[found as int].id == parent@);
                        }
                    },
                }
            },
        }
        proof {
            assert(parent_ok(v, index as int));
        }
        index = index + 1;
    }
    Ok(())
}


// ---------------------------------------------------------------------------------------------
// Parent walks and cycles
// ---------------------------------------------------------------------------------------------

/// One more parent link extends an ancestor walk by one step.
pub proof fn lemma_ancestor_succ(bs: Seq<BoundaryView>, id: Seq<char>, k: nat)
    ensures
        ancestor_at(bs, id, k + 1) == (match ancestor_at(bs, id, k) {
            Some(a) => step(bs, a),
            None => None,
        }),
    decreases k,
{
    reveal_with_fuel(ancestor_at, 2);
    if k > 0 {
        match step(bs, id) {
            Some(p) => {
                lemma_ancestor_succ(bs, p, (k - 1) as nat);
                assert(ancestor_at(bs, id, k + 1) == ancestor_at(bs, p, k));
                assert(ancestor_at(bs, id, k) == ancestor_at(bs, p, (k - 1) as nat));
            },
            None => {},
        }
    }
}

/// Every member of `c` has a parent boundary that is again a member of `c`.
pub open spec fn closed_under_step(bs: Seq<BoundaryView>, c: Seq<Seq<char>>) -> bool {
    forall|x: Seq<char>| #[trigger] c.contains(x) ==> (step(bs, x) matches Some(y) && c.contains(y))
}

/// A walk that enters a set closed under parent links stays inside it forever.
pub proof fn lemma_closed_walk(
    bs: Seq<BoundaryView>,
    c: Seq<Seq<char>>,
    start: Seq<char>,
    k0: nat,
    k: nat,
)
    requires
        closed_under_step(bs, c),
        ancestor_at(bs, start, k0) is Some,
        c.contains(ancestor_at(bs, start, k0).unwrap()),
        k0 <= k,
    ensures
        ancestor_at(bs, start, k) is Some,
        c.contains(ancestor_at(bs, start, k).unwrap()),
    decreases k - k0,
{
    if k > k0 {
        let k1 = (k - 1) as nat;
        lemma_closed_walk(bs, c, start, k0, k1);
        lemma_ancestor_succ(bs, start, k1);
        let a = ancestor_at(bs, start, k1).unwrap();
        assert(c.contains(a));
        assert(step(bs, a) is Some);
        assert(ancestor_at(bs, start, k) == step(bs, a));
    }
}

/// The identities of `s` extended by `x` are those of `s` extended by the identity of `x`.
pub proof fn lemma_id_views_push(s: Seq<ScopeId>, x: ScopeId)
    ensures
        id_views(s.push(x)) =~= id_views(s).push(x@),
{
}

/// A repetition-free sequence of declared identities is no longer than the declaration.
pub proof fn lemma_distinct_ids_bound(bs: Seq<BoundaryView>, s: Seq<Seq<char>>)
    requires
        s.no_duplicates(),
        forall|i: int| 0 <= i < s.len() ==> has_id(bs, #[trigger] s[i]),
    ensures
        s.len() <= bs.len(),
{
    let ids = bs.map_values(|b: BoundaryView| b.id);
    assert forall|x: Seq<char>| s.to_set().contains(x) implies ids.to_set().contains(x) by {
        let i = choose|i: int| 0 <= i < s.len() && s[i] == x;
        assert(has_id(bs, s[i]));
        let j = choose|j: int| 0 <= j < bs.len() && #[trigger] bs[j].id == s[i];
        assert(ids[j] == x);
    }
    s.unique_seq_to_set();
    ids.lemma_cardinality_of_set();
    vstd::set_lib::lemma_len_subset(s.to_set(), ids.to_set());
}

/// Rotating a linked cycle to start at its least member gives the canonical cycle.
proof fn lemma_rotated_cycle(bs: Seq<BoundaryView>, m: Seq<Seq<char>>, st: int)
    requires
        m.len() > 0,
        m.no_duplicates(),
        forall|i: int| 0 <= i < m.len() - 1 ==> step(bs, #[trigger] m[i]) == Some(m[i + 1]),
        step(bs, m[m.len() - 1]) == Some(m[0]),
        0 <= st < m.len(),
        forall|i: int| 0 <= i < m.len() && i != st ==> text_lt(m[st], #[trigger] m[i]),
    ensures
        canonical_cycle(bs, m.subrange(st, m.len() as int) + m.subrange(0, st)),
{
    let n = m.len() as int;
    let r = m.subrange(st, n) + m.subrange(0, st);
    assert(r.len() == n);
    assert forall|i: int| 0 <= i < n implies #[trigger] r[i] == m[if i < n - st {
        st + i
    } else {
        i - (n - st)
    }] by {}
    assert forall|a: int, b: int| 0 <= a < r.len() && 0 <= b < r.len() && a != b implies r[a]
        != r[b] by {
        let ia = if a < n - st {
            st + a
        } else {
            a - (n - st)
        };
        let ib = if b < n - st {
            st + b
        } else {
            b - (n - st)
        };
        assert(r[a] == m[ia]);
        assert(r[b] == m[ib]);
    }
    assert forall|i: int| 0 <= i < r.len() - 1 implies step(bs, #[trigger] r[i]) == Some(r[i + 1]) by {
        if i < n - st - 1 {
            assert(r[i] == m[st + i]);
            assert(r[i + 1] == m[st + i + 1]);
        } else if i == n - st - 1 {
            assert(r[i] == m[n - 1]);
            assert(r[i + 1] == m[0]);
        } else {
            assert(r[i] == m[i - (n - st)]);
            assert(r[i + 1] == m[i + 1 - (n - st)]);
        }
    }
    if st == 0 {
        assert(r[n - 1] == m[n - 1]);
    } else {
        assert(r[n - 1] == m[st - 1]);
        assert(step(bs, m[st - 1]) == Some(m[st]));
    }
    assert forall|i: int| 0 < i < r.len() implies text_lt(r[0], #[trigger] r[i]) by {
        let ii = if i < n - st {
            st + i
        } else {
            i - (n - st)
        };
        assert(r[i] == m[ii]);
        assert(ii != st);
    }
}

/// The members of a parent cycle, rotated to begin at the least identity.
fn canonical_members(members: &Vec<ScopeId>) -> (r: Vec<ScopeId>)
    requires
        members@.len() > 0,
        id_views(members@).no_duplicates(),
    ensures
        exists|st: int|
            0 <= st < members@.len() && (forall|i: int|
                0 <= i < members@.len() && i != st ==> text_lt(
                    id_views(members@)[st],
                    #[trigger] id_views(members@)[i],
                )) && id_views(r@) == id_views(members@).subrange(st, members@.len() as int)
                + id_views(members@).subrange(0, st),
{
    let ghost m = id_views(members@);
    let n = members.len();
    let mut best: usize = 0;
    let mut i: usize = 1;
    while i < n
        invariant
            m == id_views(members@),
            m.no_duplicates(),
            n == m.len(),
            1 <= i <= n,
            best < i,
            forall|t: int| 0 <= t < i && t != best ==> text_lt(m[best as int], #[trigger] m[t]),
        decreases n - i,
    {
        if members[i].precedes(&members[best]) {
            proof {
                assert forall|t: int| 0 <= t < i + 1 && t != i implies text_lt(
                    m[i as int],
                    #[trigger] m[t],
                ) by {
                    if t != best {
                        lemma_text_lt_transitive(m[i as int], m[best as int], m[t]);
                    }
                }
            }
            best = i;
        } else {
            proof {
                assert(m[i as int] != m[best as int]);
                lemma_text_lt_total(m[i as int], m[best as int]);
            }
        }
        i = i + 1;
    }
    let mut r: Vec<ScopeId> = Vec::new();
    let mut t: usize = best;
    while t < n
        invariant
            m == id_views(members@),
            n == m.len(),
            best <= t <= n,
            id_views(r@) == m.subrange(best as int, t as int),
        decreases n - t,
    {
        let x = members[t].copied();
        let ghost gx = x;
        let ghost old_r = r@;
        r.push(x);
        proof {
            lemma_id_views_push(old_r, gx);
            assert(id_views(r@) =~= m.subrange(best as int, t + 1));
        }
        t = t + 1;
    }
    let mut t: usize = 0;
    while t < best
        invariant
            m == id_views(members@),
            n == m.len(),
            best < n,
            t <= best,
            id_views(r@) == m.subrange(best as int, n as int) + m.subrange(0, t as int),
        decreases best - t,
    {
        let x = members[t].copied();
        let ghost gx = x;
        let ghost old_r = r@;
        r.push(x);
        proof {
            lemma_id_views_push(old_r, gx);
            assert(id_views(r@) =~= m.subrange(best as int, n as int) + m.subrange(0, t + 1));
        }
        t = t + 1;
    }
    r
}

/// A parent walk that returns to an earlier boundary has found a parent cycle, and a walk
/// that enters a cycle never reaches the root.
proof fn lemma_cycle_from_walk(
    v: Seq<BoundaryView>,
    start: Seq<char>,
    pv: Seq<Seq<char>>,
    current: Seq<char>,
    cs: int,
)
    requires
        pv.no_duplicates(),
        0 <= cs < pv.len(),
        pv[cs] == current,
        forall|t: int| 0 <= t < pv.len() ==> ancestor_at(v, start, t as nat) == Some(#[trigger] pv[t]),
        ancestor_at(v, start, pv.len() as nat) == Some(current),
    ensures
        pv.subrange(cs, pv.len() as int).len() > 0,
        pv.subrange(cs, pv.len() as int).no_duplicates(),
        forall|i: int|
            0 <= i < pv.subrange(cs, pv.len() as int).len() - 1 ==> step(
                v,
                #[trigger] pv.subrange(cs, pv.len() as int)[i],
            ) == Some(pv.subrange(cs, pv.len() as int)[i + 1]),
        step(v, pv.subrange(cs, pv.len() as int)[pv.len() - cs - 1]) == Some(
            pv.subrange(cs, pv.len() as int)[0],
        ),
        !reaches_root(v, start),
{
    let j = pv.len() as int;
    let m0 = pv.subrange(cs, j);
    assert forall|t: int| 0 <= t < j implies step(v, #[trigger] pv[t]) == (if t + 1 < j {
        Some(pv[t + 1])
    } else {
        Some(current)
    }) by {
        lemma_ancestor_succ(v, start, t as nat);
        assert(ancestor_at(v, start, t as nat) == Some(pv[t]));
        if t + 1 < j {
            assert(ancestor_at(v, start, (t + 1) as nat) == Some(pv[t + 1]));
        }
    }
    assert forall|a: int, c: int| 0 <= a < m0.len() && 0 <= c < m0.len() && a != c implies m0[a]
        != m0[c] by {
        assert(m0[a] == pv[cs + a]);
        assert(m0[c] == pv[cs + c]);
    }
    assert forall|i: int| 0 <= i < m0.len() - 1 implies step(v, #[trigger] m0[i]) == Some(
        m0[i + 1],
    ) by {
        assert(m0[i] == pv[cs + i]);
        assert(m0[i + 1] == pv[cs + i + 1]);
    }
    assert(m0[m0.len() - 1] == pv[j - 1]);
    assert(m0[0] == pv[cs]);
    assert(step(v, m0[m0.len() - 1]) == Some(m0[0]));
    assert forall|x: Seq<char>| #[trigger] m0.contains(x) implies (step(v, x) matches Some(y)
        && m0.contains(y)) by {
        let i = choose|i: int| 0 <= i < m0.len() && m0[i] == x;
        if i < m0.len() - 1 {
            assert(step(v, m0[i]) == Some(m0[i + 1]));
        } else {
            assert(step(v, m0[i]) == Some(m0[0]));
        }
    }
    assert(closed_under_step(v, m0));
    reveal(step);
    if reaches_root(v, start) {
        let k = choose|k: nat|
            #[trigger] ancestor_at(v, start, k) matches Some(a) && root_parented(v, a);
        let a = ancestor_at(v, start, k).unwrap();
        if (k as int) < j {
            assert(ancestor_at(v, start, k) == Some(pv[k as int]));
            assert(step(v, pv[k as int]) is Some);
        } else {
            assert(ancestor_at(v, start, cs as nat) == Some(pv[cs]));
            assert(m0.contains(pv[cs]));
            lemma_closed_walk(v, m0, start, cs as nat, k);
            assert(m0.contains(a));
            assert(step(v, a) is Some);
        }
        assert(false);
    }
}

/// The first position at which `id` occurs in `path`.
fn position_of(path: &Vec<ScopeId>, id: &ScopeId) -> (r: Option<usize>)
    ensures
        match r {
            Some(t) => t < path@.len() && path@[t as int]@ == id@ && forall|u: int|
                0 <= u < t ==> (#[trigger] path@[u])@ != id@,
            None => !id_views(path@).contains(id@),
        },
{
    let mut t: usize = 0;
    while t < path.len()
        invariant
            t <= path@.len(),
            forall|u: int| 0 <= u < t ==> (#[trigger] path@[u])@ != id@,
        decreases path@.len() - t,
    {
        if path[t].same(id) {
            return Some(t);
        }
        t = t + 1;
    }
    proof {
        if id_views(path@).contains(id@) {
            let u = choose|u: int| 0 <= u < path@.len() && id_views(path@)[u] == id@;
            assert(path@[u]@ == id@);
        }
    }
    None
}

/// Follows parent links from boundary `b` until the root or a repeated boundary.
fn walk_to_root(bs: &Vec<ScopeBoundary>, b: usize) -> (r: Result<(), ScopeTopologyError>)
    requires
        strictly_sorted(views(bs@)),
        forall|i: int| 0 <= i < bs@.len() ==> #[trigger] parent_ok(views(bs@), i),
        b < bs@.len(),
    ensures
        r is Ok <==> reaches_root(views(bs@), views(bs@)[b as int].id),
        r matches Err(e) ==> (e matches ScopeTopologyError::Cycle { members } && canonical_cycle(
            views(bs@),
            id_views(members@),
        ) && exists|t: nat|
            #[trigger] ancestor_at(views(bs@), views(bs@)[b as int].id, t) == Some(
                id_views(members@)[0],
            )),
{
    let ghost v = views(bs@);
    let ghost start = v[b as int].id;
    let mut path: Vec<ScopeId> = Vec::new();
    let mut current = bs[b].id().copied();
    proof {
        assert(v[b as int].id == start);
    }
    loop
        invariant
            v == views(bs@),
            strictly_sorted(v),
            forall|i: int| 0 <= i < bs@.len() ==> #[trigger] parent_ok(v, i),
            start == v[b as int].id,
            id_views(path@).no_duplicates(),
            forall|t: int| 0 <= t < path@.len() ==> ancestor_at(v, start, t as nat) == Some(
                #[trigger] id_views(path@)[t],
            ),
            forall|t: int| 0 <= t < path@.len() ==> has_id(v, #[trigger] id_views(path@)[t]),
            ancestor_at(v, start, path@.len() as nat) == Some(current@),
            has_id(v, current@),
            path@.len() <= v.len(),
        decreases v.len() - path@.len(),
    {
        let ghost pv = id_views(path@);
        let ghost j = path@.len();
        match position_of(&path, &current) {
            Some(cycle_start) => {
                let mut members: Vec<ScopeId> = Vec::new();
                let mut t = cycle_start;
                while t < path.len()
                    invariant
                        cycle_start <= t <= path@.len(),
                        pv == id_views(path@),
                        id_views(members@) == pv.subrange(cycle_start as int, t as int),
                    decreases path@.len() - t,
                {
                    let x = path[t].copied();
                    let ghost gx = x;
                    let ghost old_m = members@;
                    members.push(x);
                    proof {
                        lemma_id_views_push(old_m, gx);
                        assert(id_views(members@) =~= pv.subrange(cycle_start as int, t + 1));
                    }
                    t = t + 1;
                }
                let ghost m0 = id_views(members@);
                let ghost cs = cycle_start as int;
                proof {
                    lemma_cycle_from_walk(v, start, pv, current@, cs);
                }
                let canonical = canonical_members(&members);
                proof {
                    let st = choose|st: int|
                        0 <= st < members@.len() && (forall|i: int|
                            0 <= i < members@.len() && i != st ==> text_lt(
                                id_views(members@)[st],
                                #[trigger] id_views(members@)[i],
                            )) && id_views(canonical@) == id_views(members@).subrange(
                            st,
                            members@.len() as int,
                        ) + id_views(members@).subrange(0, st);
                    lemma_rotated_cycle(v, m0, st);
                    assert(id_views(canonical@)[0] == m0[st]);
                    assert(m0[st] == pv[cs + st]);
                    assert(ancestor_at(v, start, (cs + st) as nat) == Some(id_views(canonical@)[0]));
                }
                return Err(ScopeTopologyError::Cycle { members: canonical });
            },
            None => {},
        }
        let index = match find_boundary(bs, &current) {
            Some(index) => index,
            None => {
                proof {
                    assert(false);
                }
                return Ok(());
            },
        };
        proof {
            lemma_lookup_unique(v, index as int);
            assert(v[index as int].id == current@);
        }
        match bs[index].parent() {
            ScopeParent::Root => {
                proof {
                    assert(parent_of(v, current@) == Some(None::<Seq<char>>));
                    assert(ancestor_at(v, start, j as nat) matches Some(a) && root_parented(v, a));
                }
                return Ok(());
            },
            ScopeParent::Boundary(parent) => {
                let next = parent.copied();
                proof {
                    assert(parent_ok(v, index as int));
                    reveal(step);
                    assert(step(v, current@) == Some(next@));
                    lemma_ancestor_succ(v, start, j as nat);
                    let np = pv.push(current@);
                    assert(np.no_duplicates()) by {
                        assert forall|a: int, c: int| 0 <= a < np.len() && 0 <= c < np.len() && a != c implies np[a] != np[c] by {
                            if a == j {
                                assert(np[c] == pv[c]);
                            } else if c == j {
                                assert(np[a] == pv[a]);
                            }
                        }
                    }
                    assert forall|t: int| 0 <= t < np.len() implies has_id(v, #[trigger] np[t]) by {
                        if t < j {
                            assert(np[t] == pv[t]);
                        }
                    }
                    lemma_distinct_ids_bound(v, np);
                }
                path.push(current);
                proof {
                    assert(id_views(path@) =~= pv.push(current@));
                }
                current = next;
            },
        }
    }
}

/// Rejects parent cycles, reporting the canonical cycle reached from the first boundary whose
/// ancestry never reaches the root.
pub fn validate_cycles(bs: &Vec<ScopeBoundary>) -> (r: Result<(), ScopeTopologyError>)
    requires
        strictly_sorted(views(bs@)),
        forall|i: int| 0 <= i < bs@.len() ==> #[trigger] parent_ok(views(bs@), i),
    ensures
        r is Ok <==> forall|i: int|
            0 <= i < bs@.len() ==> #[trigger] reaches_root(views(bs@), views(bs@)[i].id),
        r matches Err(e) ==> first_cycle_fault(views(bs@), e),
{
    let ghost v = views(bs@);
    let mut b: usize = 0;
    while b < bs.len()
        invariant
            v == views(bs@),
            strictly_sorted(v),
            forall|i: int| 0 <= i < bs@.len() ==> #[trigger] parent_ok(v, i),
            b <= bs@.len(),
            forall|i: int| 0 <= i < b ==> #[trigger] reaches_root(v, v[i].id),
        decreases bs@.len() - b,
    {
        match walk_to_root(bs, b) {
            Ok(()) => {},
            Err(e) => {
                proof {
                    assert(first_cycle_fault(v, e)) by {
                        assert(0 <= b < v.len());
                    }
                }
                return Err(e);
            },
        }
        b = b + 1;
    }
    Ok(())
}


/// Rejects a parent that does not strictly outlive its child, reporting the first offending
/// position.
pub fn validate_parent_ranks(bs: &Vec<ScopeBoundary>) -> (r: Result<(), ScopeTopologyError>)
    requires
        strictly_sorted(views(bs@)),
        forall|i: int| 0 <= i < bs@.len() ==> #[trigger] parent_ok(views(bs@), i),
    ensures
        r is Ok <==> forall|i: int| 0 <= i < bs@.len() ==> #[trigger] rank_ok(views(bs@), i),
        r matches Err(e) ==> first_rank_fault(views(bs@), e),
{
    let ghost v = views(bs@);
    let mut index: usize = 0;
    while index < bs.len()
        invariant
            v == views(bs@),
            strictly_sorted(v),
            forall|i: int| 0 <= i < bs@.len() ==> #[trigger] parent_ok(v, i),
            index <= bs@.len(),
            forall|i: int| 0 <= i < index ==> #[trigger] rank_ok(v, i),
        decreases bs@.len() - index,
    {
        let boundary = &bs[index];
        proof {
            assert(parent_ok(v, index as int));
        }
        let parent_rank: u8 = match boundary.parent() {
            ScopeParent::Root => 255,
            ScopeParent::Boundary(parent) => {
                match find_boundary(bs, parent) {
                    Some(found) => {
                        proof {
                            lemma_lookup_unique(v, found as int);
                        }
                        bs[found].rank()
                    },
                    None => {
                        proof {
                            assert(false);
                        }
                        0
                    },
                }
            },
        };
        let child_rank = boundary.rank();
        if parent_rank <= child_rank {
            proof {
                assert(!rank_ok(v, index as int));
            }
            return Err(
                ScopeTopologyError::InvalidParentRank {
                    child: boundary.id().copied(),
                    child_rank,
                    parent: boundary.parent().id(),
                    parent_rank,
                },
            );
        }
        proof {
            assert(rank_ok(v, index as int));
        }
        index = index + 1;
    }
    Ok(())
}

// ---------------------------------------------------------------------------------------------
// Declarations and prepared topologies
// ---------------------------------------------------------------------------------------------

/// An immutable declaration of protocol-owned scope boundaries, in declaration order.
///
/// The root is implicit: every item declares exactly one non-root boundary and its only valid
/// parent. Call [`prepare`](Self::prepare) before using a topology for lookup.
#[derive(Clone, Debug)]
pub struct ScopeTopology {
    pub boundaries: Vec<ScopeBoundary>,
}

impl ScopeTopology {
    /// Creates a topology declaration from scope boundaries.
    pub fn new(boundaries: Vec<ScopeBoundary>) -> (r: Self)
        ensures
            r.boundaries@ == boundaries@,
    {
        ScopeTopology { boundaries }
    }

    /// A topology that declares no boundaries.
    pub fn empty() -> (r: Self)
        ensures
            r.boundaries@.len() == 0,
    {
        ScopeTopology { boundaries: Vec::new() }
    }

    /// Returns the boundaries in declaration order.
    pub fn boundaries(&self) -> (r: &[ScopeBoundary])
        ensures
            r@ == self.boundaries@,
    {
        self.boundaries.as_slice()
    }

    /// Validates this declaration and returns it in stable identity order.
    ///
    /// The boundaries are sorted by identity; then, in order, identities, parents, cycles and
    /// parent ranks are checked, and the first violation of the first failing check is reported.
    pub fn prepare(&self) -> (r: Result<PreparedScopeTopology, ScopeTopologyError>)
        ensures
            r matches Ok(t) ==> sorted_permutation(views(self.boundaries@), t@) && well_formed(t@),
            r matches Err(e) ==> exists|s: Seq<BoundaryView>|
                sorted_permutation(views(self.boundaries@), s) && #[trigger] first_fault(s, e),
    {
        let sorted = sort_boundaries(&self.boundaries);
        let ghost s = views(sorted@);
        match validate_ids(&sorted) {
            Ok(()) => {},
            Err(e) => {
                proof {
                    assert(first_fault(s, e));
                }
                return Err(e);
            },
        }
        proof {
            assert forall|i: int| 0 < i < s.len() implies s[i - 1].id != #[trigger] s[i].id by {
                assert(id_ok(s, i));
            }
            lemma_strictly_sorted(s);
        }
        match validate_parents(&sorted) {
            Ok(()) => {},
            Err(e) => {
                proof {
                    assert(first_fault(s, e));
                }
                return Err(e);
            },
        }
        match validate_cycles(&sorted) {
            Ok(()) => {},
            Err(e) => {
                proof {
                    assert(first_fault(s, e));
                }
                return Err(e);
            },
        }
        match validate_parent_ranks(&sorted) {
            Ok(()) => {},
            Err(e) => {
                proof {
                    assert(first_fault(s, e));
                }
                return Err(e);
            },
        }
        Ok(PreparedScopeTopology { boundaries: sorted })
    }
}

impl Default for ScopeTopology {
    fn default() -> (r: Self)
        ensures
            r.boundaries@.len() == 0,
    {
        ScopeTopology::empty()
    }
}

/// How many parent links lead from `id` to the boundary parented by the root.
pub open spec fn root_depth(bs: Seq<BoundaryView>, id: Seq<char>) -> nat {
    choose|k: nat| #[trigger] ancestor_at(bs, id, k) matches Some(a) && root_parented(bs, a)
}

/// The identities from `id`'s parent up to and including the implicit root; empty when `id` is
/// not a declared boundary.
pub open spec fn ancestor_chain(bs: Seq<BoundaryView>, id: Seq<char>) -> Seq<Seq<char>> {
    if has_id(bs, id) {
        Seq::new(root_depth(bs, id), |t: int| ancestor_at(bs, id, (t + 1) as nat).unwrap()).push(
            root_id(),
        )
    } else {
        Seq::empty()
    }
}

/// Whether `id` names the root or a declared boundary.
pub open spec fn scope_exists(bs: Seq<BoundaryView>, id: Seq<char>) -> bool {
    id == root_id() || has_id(bs, id)
}

/// Whether a consumer scope can reach a dependency scope: both exist, and the dependency is the
/// consumer itself or one of its ancestors.
pub open spec fn reachable(bs: Seq<BoundaryView>, consumer: Seq<char>, dependency: Seq<char>) -> bool {
    &&& scope_exists(bs, consumer)
    &&& scope_exists(bs, dependency)
    &&& (consumer == dependency || ancestor_chain(bs, consumer).contains(dependency))
}

/// The lifetime rank of the root or of a declared boundary.
pub open spec fn rank_of(bs: Seq<BoundaryView>, id: Seq<char>) -> u8 {
    if id == root_id() {
        root_rank()
    } else {
        lookup(bs, id).rank
    }
}

/// A validated, immutable scope topology in stable identity order.
#[derive(Debug)]
pub struct PreparedScopeTopology {
    boundaries: Vec<ScopeBoundary>,
}

impl View for PreparedScopeTopology {
    type V = Seq<BoundaryView>;

    closed spec fn view(&self) -> Seq<BoundaryView> {
        views(self.boundaries@)
    }
}

impl PreparedScopeTopology {
    #[verifier::type_invariant]
    spec fn inv(self) -> bool {
        well_formed(views(self.boundaries@))
    }

    /// Returns all declared boundaries in stable identity order.
    pub fn boundaries(&self) -> (r: &[ScopeBoundary])
        ensures
            views(r@) == self@,
            well_formed(self@),
    {
        proof {
            use_type_invariant(self);
        }
        self.boundaries.as_slice()
    }

    /// Returns the declared boundary with `id`, if present.
    pub fn boundary(&self, id: &ScopeId) -> (r: Option<&ScopeBoundary>)
        ensures
            r is Some <==> has_id(self@, id@),
            r matches Some(b) ==> b@ == lookup(self@, id@),
    {
        proof {
            use_type_invariant(self);
        }
        match find_boundary(&self.boundaries, id) {
            Some(index) => {
                proof {
                    lemma_lookup_unique(self@, index as int);
                }
                Some(&self.boundaries[index])
            },
            None => None,
        }
    }

    /// Returns whether `id` names a declared non-root boundary.
    pub fn contains(&self, id: &ScopeId) -> (r: bool)
        ensures
            r == has_id(self@, id@),
    {
        self.boundary(id).is_some()
    }

    /// Returns the declared parent of `id`, if `id` is a boundary.
    pub fn parent_of(&self, id: &ScopeId) -> (r: Option<ScopeParent>)
        ensures
            r is Some <==> parent_of(self@, id@) is Some,
            r matches Some(p) ==> parent_of(self@, id@) == Some(p@),
    {
        match self.boundary(id) {
            Some(boundary) => Some(boundary.parent().copied()),
            None => None,
        }
    }

    /// The identities from `id`'s immediate parent through the implicit root. An undeclared
    /// identity and the root itself have no ancestors.
    pub fn ancestors(&self, id: &ScopeId) -> (r: Vec<ScopeId>)
        ensures
            id_views(r@) == ancestor_chain(self@, id@),
    {
        proof {
            use_type_invariant(self);
        }
        let ghost v = self@;
        let mut out: Vec<ScopeId> = Vec::new();
        let first = match find_boundary(&self.boundaries, id) {
            Some(index) => index,
            None => {
                proof {
                    assert(id_views(out@) =~= ancestor_chain(v, id@));
                }
                return out;
            },
        };
        let ghost big_k = root_depth(v, id@);
        proof {
            assert(v[first as int].id == id@);
            assert(reaches_root(v, v[first as int].id));
            assert(ancestor_at(v, id@, big_k) matches Some(a) && root_parented(v, a));
        }
        let mut index = first;
        let ghost mut j: nat = 0;
        loop
            invariant
                v == self@,
                v == views(self.boundaries@),
                well_formed(v),
                has_id(v, id@),
                big_k == root_depth(v, id@),
                ancestor_at(v, id@, big_k) matches Some(a) && root_parented(v, a),
                index < v.len(),
                ancestor_at(v, id@, j) == Some(v[index as int].id),
                j <= big_k,
                id_views(out@) == Seq::new(j, |t: int| ancestor_at(v, id@, (t + 1) as nat).unwrap()),
            decreases big_k - j,
        {
            proof {
                lemma_lookup_unique(v, index as int);
            }
            match self.boundaries[index].parent() {
                ScopeParent::Root => {
                    proof {
                        assert(root_parented(v, v[index as int].id));
                        lemma_root_depth_unique(v, id@, j);
                    }
                    let root = ScopeId::root();
                    let ghost gx = root;
                    let ghost old_out = out@;
                    out.push(root);
                    proof {
                        lemma_id_views_push(old_out, gx);
                        assert(id_views(out@) =~= ancestor_chain(v, id@));
                    }
                    return out;
                },
                ScopeParent::Boundary(parent) => {
                    let next = match find_boundary(&self.boundaries, parent) {
                        Some(next) => next,
                        None => {
                            proof {
                                assert(parent_ok(v, index as int));
                                assert(false);
                            }
                            return out;
                        },
                    };
                    proof {
                        reveal(step);
                        assert(step(v, v[index as int].id) == Some(parent@));
                        lemma_ancestor_succ(v, id@, j);
                        assert(ancestor_at(v, id@, j + 1) == Some(parent@));
                        if j == big_k {
                            assert(!root_parented(v, v[index as int].id));
                        }
                        assert(j < big_k) by {
                            if j > big_k {
                                lemma_after_root_none(v, id@, big_k, j);
                            }
                        }
                    }
                    let copy = parent.copied();
                    let ghost gx = copy;
                    let ghost old_out = out@;
                    out.push(copy);
                    proof {
                        lemma_id_views_push(old_out, gx);
                        assert(id_views(out@) =~= Seq::new(
                            (j + 1) as nat,
                            |t: int| ancestor_at(v, id@, (t + 1) as nat).unwrap(),
                        ));
                        j = j + 1;
                    }
                    index = next;
                },
            }
        }
    }

    /// Returns whether `ancestor` is a strict ancestor of `descendant`. The implicit root is an
    /// ancestor of every declared boundary.
    pub fn is_ancestor(&self, ancestor: &ScopeId, descendant: &ScopeId) -> (r: bool)
        ensures
            r == ancestor_chain(self@, descendant@).contains(ancestor@),
    {
        let chain = self.ancestors(descendant);
        match position_of(&chain, ancestor) {
            Some(t) => {
                proof {
                    assert(id_views(chain@)[t as int] == ancestor@);
                }
                true
            },
            None => false,
        }
    }

    /// Returns whether a consumer boundary can reach a dependency boundary: the dependency is
    /// the consumer itself or one of its ancestors, so siblings are unreachable regardless of
    /// lifetime rank.
    pub fn is_reachable(&self, consumer: &ScopeId, dependency: &ScopeId) -> (r: bool)
        ensures
            r == reachable(self@, consumer@, dependency@),
    {
        let root = ScopeId::root();
        let consumer_exists = consumer.same(&root) || self.contains(consumer);
        let dependency_exists = dependency.same(&root) || self.contains(dependency);
        consumer_exists && dependency_exists && (consumer.same(dependency) || self.is_ancestor(
            dependency,
            consumer,
        ))
    }
}

/// Past the root-parented boundary a walk has nothing left to follow.
pub proof fn lemma_after_root_none(bs: Seq<BoundaryView>, id: Seq<char>, k: nat, k2: nat)
    requires
        ancestor_at(bs, id, k) matches Some(a) && root_parented(bs, a),
        k < k2,
    ensures
        ancestor_at(bs, id, k2) is None,
    decreases k2 - k,
{
    reveal(step);
    lemma_ancestor_succ(bs, id, k);
    if k2 > k + 1 {
        lemma_none_after(bs, id, k + 1, k2);
    }
}

/// Once a walk has stopped it stays stopped.
pub proof fn lemma_none_after(bs: Seq<BoundaryView>, id: Seq<char>, k: nat, k2: nat)
    requires
        ancestor_at(bs, id, k) is None,
        k <= k2,
    ensures
        ancestor_at(bs, id, k2) is None,
    decreases k2 - k,
{
    if k2 > k {
        lemma_none_after(bs, id, k, (k2 - 1) as nat);
        lemma_ancestor_succ(bs, id, (k2 - 1) as nat);
    }
}

/// The root-parented boundary is reached after exactly one number of links.
pub proof fn lemma_root_depth_unique(bs: Seq<BoundaryView>, id: Seq<char>, j: nat)
    requires
        ancestor_at(bs, id, j) matches Some(a) && root_parented(bs, a),
    ensures
        root_depth(bs, id) == j,
{
    let k = root_depth(bs, id);
    assert(ancestor_at(bs, id, k) matches Some(a) && root_parented(bs, a));
    if k < j {
        lemma_after_root_none(bs, id, k, j);
    } else if j < k {
        lemma_after_root_none(bs, id, j, k);
    }
}


// ---------------------------------------------------------------------------------------------
// Laws of prepared topologies
// ---------------------------------------------------------------------------------------------

/// Following `a` links and then `b` more is following `a + b` links.
pub proof fn lemma_ancestor_compose(bs: Seq<BoundaryView>, x: Seq<char>, a: nat, b: nat)
    ensures
        ancestor_at(bs, x, a + b) == (match ancestor_at(bs, x, a) {
            Some(y) => ancestor_at(bs, y, b),
            None => None,
        }),
    decreases a,
{
    if a > 0 {
        match step(bs, x) {
            Some(p) => {
                lemma_ancestor_compose(bs, p, (a - 1) as nat, b);
                assert(ancestor_at(bs, x, a + b) == ancestor_at(bs, p, (a + b - 1) as nat));
            },
            None => {},
        }
    }
}

/// In a well-formed topology the framework identities are not declared boundaries.
pub proof fn lemma_reserved_not_declared(bs: Seq<BoundaryView>, x: Seq<char>)
    requires
        well_formed(bs),
        reserved(x),
    ensures
        !has_id(bs, x),
{
    if has_id(bs, x) {
        let i = choose|i: int| 0 <= i < bs.len() && #[trigger] bs[i].id == x;
        assert(id_ok(bs, i));
    }
}

/// A declared boundary satisfies the checks of its position.
proof fn lemma_declared(bs: Seq<BoundaryView>, x: Seq<char>) -> (i: int)
    requires
        well_formed(bs),
        has_id(bs, x),
    ensures
        0 <= i < bs.len(),
        bs[i].id == x,
        lookup(bs, x) == bs[i],
        reaches_root(bs, x),
        rank_ok(bs, i),
        parent_ok(bs, i),
        x != root_id(),
{
    let i = choose|i: int| 0 <= i < bs.len() && #[trigger] bs[i].id == x;
    lemma_lookup_unique(bs, i);
    assert(reaches_root(bs, bs[i].id));
    assert(rank_ok(bs, i));
    assert(parent_ok(bs, i));
    assert(id_ok(bs, i));
    i
}

/// Membership in the ancestor chain of a declared boundary: the root, or a boundary reached by
/// following at least one parent link.
pub proof fn lemma_chain_member(bs: Seq<BoundaryView>, x: Seq<char>, y: Seq<char>)
    requires
        well_formed(bs),
        has_id(bs, x),
    ensures
        ancestor_chain(bs, x).contains(y) <==> (y == root_id() || exists|t: nat|
            1 <= t && #[trigger] ancestor_at(bs, x, t) == Some(y)),
{
    lemma_declared(bs, x);
    let k = root_depth(bs, x);
    assert(ancestor_at(bs, x, k) matches Some(a) && root_parented(bs, a));
    let chain = ancestor_chain(bs, x);
    assert(chain.len() == k + 1);
    if chain.contains(y) {
        let i = choose|i: int| 0 <= i < chain.len() && chain[i] == y;
        if i < k {
            if ancestor_at(bs, x, (i + 1) as nat) is None {
                lemma_none_after(bs, x, (i + 1) as nat, k);
            }
            assert(ancestor_at(bs, x, (i + 1) as nat) == Some(y));
        }
    }
    if y == root_id() {
        assert(chain[k as int] == y);
    } else if exists|t: nat| 1 <= t && #[trigger] ancestor_at(bs, x, t) == Some(y) {
        let t = choose|t: nat| 1 <= t && #[trigger] ancestor_at(bs, x, t) == Some(y);
        if t > k {
            lemma_after_root_none(bs, x, k, t);
        }
        assert(chain[t - 1] == y);
    }
}

/// Ancestry composes: an ancestor of an ancestor is an ancestor.
pub proof fn lemma_chain_transitive(bs: Seq<BoundaryView>, a: Seq<char>, b: Seq<char>, c: Seq<char>)
    requires
        well_formed(bs),
        ancestor_chain(bs, a).contains(b),
        ancestor_chain(bs, b).contains(c),
    ensures
        ancestor_chain(bs, a).contains(c),
{
    assert(has_id(bs, a));
    assert(has_id(bs, b));
    lemma_chain_member(bs, a, b);
    lemma_chain_member(bs, b, c);
    lemma_chain_member(bs, a, c);
    lemma_declared(bs, b);
    if c != root_id() {
        let t = choose|t: nat| 1 <= t && #[trigger] ancestor_at(bs, a, t) == Some(b);
        let u = choose|u: nat| 1 <= u && #[trigger] ancestor_at(bs, b, u) == Some(c);
        lemma_ancestor_compose(bs, a, t, u);
        assert(ancestor_at(bs, a, t + u) == Some(c));
    }
}

/// No scope is its own ancestor.
pub proof fn law_no_self_ancestor(bs: Seq<BoundaryView>, x: Seq<char>)
    requires
        well_formed(bs),
    ensures
        !ancestor_chain(bs, x).contains(x),
{
    if has_id(bs, x) {
        lemma_declared(bs, x);
        lemma_chain_member(bs, x, x);
        if ancestor_chain(bs, x).contains(x) {
            let t = choose|t: nat| 1 <= t && #[trigger] ancestor_at(bs, x, t) == Some(x);
            let k = root_depth(bs, x);
            assert(ancestor_at(bs, x, k) matches Some(a) && root_parented(bs, a));
            lemma_ancestor_compose(bs, x, t, k);
            lemma_after_root_none(bs, x, k, t + k);
        }
    }
}

/// Every existing scope reaches itself.
pub proof fn law_reachable_reflexive(bs: Seq<BoundaryView>, x: Seq<char>)
    requires
        well_formed(bs),
        scope_exists(bs, x),
    ensures
        reachable(bs, x, x),
{
}

/// Every existing scope reaches the implicit application root.
pub proof fn law_root_reachable(bs: Seq<BoundaryView>, x: Seq<char>)
    requires
        well_formed(bs),
        scope_exists(bs, x),
    ensures
        reachable(bs, x, root_id()),
{
    if x != root_id() {
        lemma_chain_member(bs, x, root_id());
    }
}

/// Reachability is transitive.
pub proof fn law_reachable_transitive(
    bs: Seq<BoundaryView>,
    a: Seq<char>,
    b: Seq<char>,
    c: Seq<char>,
)
    requires
        well_formed(bs),
        reachable(bs, a, b),
        reachable(bs, b, c),
    ensures
        reachable(bs, a, c),
{
    if a != b && b != c && a != c {
        lemma_chain_transitive(bs, a, b, c);
    }
}

/// Two distinct scopes never reach each other: reachability only points towards the root.
pub proof fn law_reachable_antisymmetric(bs: Seq<BoundaryView>, a: Seq<char>, b: Seq<char>)
    requires
        well_formed(bs),
        reachable(bs, a, b),
        reachable(bs, b, a),
    ensures
        a == b,
{
    if a != b {
        lemma_chain_transitive(bs, a, b, a);
        law_no_self_ancestor(bs, a);
    }
}

/// Walking up from a declared boundary only meets strictly longer-lived boundaries.
proof fn lemma_rank_increases(bs: Seq<BoundaryView>, d: Seq<char>, t: nat)
    requires
        well_formed(bs),
        has_id(bs, d),
        1 <= t,
        ancestor_at(bs, d, t) is Some,
    ensures
        has_id(bs, ancestor_at(bs, d, t).unwrap()),
        rank_of(bs, ancestor_at(bs, d, t).unwrap()) > rank_of(bs, d),
    decreases t,
{
    let i = lemma_declared(bs, d);
    reveal(step);
    if t == 1 {
        reveal_with_fuel(ancestor_at, 2);
        let p = step(bs, d).unwrap();
        assert(ancestor_at(bs, d, 1) == Some(p));
        assert(bs[i].parent == Some(p));
        lemma_declared(bs, p);
    } else {
        let z_opt = ancestor_at(bs, d, (t - 1) as nat);
        lemma_ancestor_compose(bs, d, (t - 1) as nat, 1);
        if z_opt is None {
            assert(ancestor_at(bs, d, t) is None);
        }
        let z = z_opt.unwrap();
        lemma_rank_increases(bs, d, (t - 1) as nat);
        assert(ancestor_at(bs, z, 1) is Some);
        lemma_rank_increases(bs, z, 1);
    }
}

/// Every strict ancestor of a scope is strictly longer-lived than it.
pub proof fn law_ancestors_outlive(bs: Seq<BoundaryView>, a: Seq<char>, d: Seq<char>)
    requires
        well_formed(bs),
        ancestor_chain(bs, d).contains(a),
    ensures
        rank_of(bs, a) > rank_of(bs, d),
{
    assert(has_id(bs, d));
    lemma_chain_member(bs, d, a);
    lemma_declared(bs, d);
    if a == root_id() {
        let k = root_depth(bs, d);
        assert(ancestor_at(bs, d, k) matches Some(w) && root_parented(bs, w));
        let w = ancestor_at(bs, d, k).unwrap();
        assert(has_id(bs, w));
        let iw = lemma_declared(bs, w);
        assert(bs[iw].parent is None);
        if k >= 1 {
            lemma_rank_increases(bs, d, k);
        } else {
            assert(w == d);
        }
    } else {
        let t = choose|t: nat| 1 <= t && #[trigger] ancestor_at(bs, d, t) == Some(a);
        lemma_rank_increases(bs, d, t);
    }
}

} // verus!
